//! Command-line argument handling: `url-md <URL>` is short for `url-md md <URL>`.
use vstd::prelude::*;
use crate::strs::{chars_of, has_prefix, starts_with, str_eq, string_from};

verus! {

/// The first argument names a subcommand or a help/version flag.
pub open spec fn is_known_subcommand_spec(s: Seq<char>) -> bool {
    ||| s == "md"@
    ||| s == "serve"@
    ||| s == "help"@
    ||| s == "-h"@
    ||| s == "--help"@
    ||| s == "-V"@
    ||| s == "--version"@
}

/// The text starts with `http://` or `https://`.
pub open spec fn looks_like_url_spec(s: Seq<char>) -> bool {
    has_prefix(s, "http://"@) || has_prefix(s, "https://"@)
}

/// A positional argument (not starting with `-`) that looks like a URL.
pub open spec fn is_url_positional(a: Seq<char>) -> bool {
    !has_prefix(a, "-"@) && looks_like_url_spec(a)
}

/// The arguments after desugaring: `md` is inserted after the program name
/// when the first argument is not a known subcommand and some argument is a
/// URL positional.
pub open spec fn desugar_spec(args: Seq<Seq<char>>) -> Seq<Seq<char>> {
    if args.len() > 1 && !is_known_subcommand_spec(args[1]) && exists|i: int|
        1 <= i < args.len() && is_url_positional(#[trigger] args[i]) {
        args.insert(1, "md"@)
    } else {
        args
    }
}

/// Whether `s` is a subcommand name or a help/version flag.
pub fn is_known_subcommand(s: &str) -> (b: bool)
    ensures
        b == is_known_subcommand_spec(s@),
{
    str_eq(s, "md") || str_eq(s, "serve") || str_eq(s, "help") || str_eq(s, "-h") || str_eq(
        s,
        "--help",
    ) || str_eq(s, "-V") || str_eq(s, "--version")
}

/// Whether `s` starts with `http://` or `https://` (a bare host does not count).
pub fn looks_like_url(s: &str) -> (b: bool)
    ensures
        b == looks_like_url_spec(s@),
{
    let v = chars_of(s);
    starts_with(&v, &chars_of("http://")) || starts_with(&v, &chars_of("https://"))
}

fn is_url_positional_exec(a: &str) -> (b: bool)
    ensures
        b == is_url_positional(a@),
{
    let v = chars_of(a);
    !starts_with(&v, &chars_of("-")) && looks_like_url(a)
}

/// Inserts the `md` subcommand after the program name when the first
/// argument is not a known subcommand and some argument is a URL
/// positional, so `url-md <URL>` means `url-md md <URL>` and
/// `url-md --verbose <URL>` means `url-md md --verbose <URL>`.
pub fn desugar_args(args: Vec<String>) -> (r: Vec<String>)
    ensures
        r.deep_view() == desugar_spec(args.deep_view()),
{
    let n = args.len();
    if n <= 1 {
        return args;
    }
    let first_is_subcommand = is_known_subcommand(args[1].as_str());
    let mut has_url = false;
    let mut i: usize = 1;
    while i < n && !has_url
        invariant
            n == args.deep_view().len(),
            1 <= i <= n,
            has_url ==> exists|k: int| 1 <= k < n && is_url_positional(#[trigger] args.deep_view()[k]),
            !has_url ==> forall|k: int| 1 <= k < i ==> !is_url_positional(#[trigger] args.deep_view()[k]),
        decreases n - i + if has_url { 0int } else { 1int },
    {
        assert(args.deep_view()[i as int] == args@[i as int]@);
        if is_url_positional_exec(args[i].as_str()) {
            has_url = true;
        } else {
            i = i + 1;
        }
    }
    assert(args.deep_view()[1] == args@[1]@);
    if !first_is_subcommand && has_url {
        let mut out: Vec<String> = Vec::new();
        let ghost a = args.deep_view();
        let ghost target = a.insert(1, "md"@);
        for k in 0..n
            invariant
                n == a.len() == args@.len(),
                a == args.deep_view(),
                target == a.insert(1, "md"@),
                k == 0 ==> out.deep_view() == Seq::<Seq<char>>::empty(),
                k >= 1 ==> out.deep_view() == target.take(k + 1),
        {
            assert(a[k as int] == args@[k as int]@);
            out.push(args[k].clone());
            if k == 0 {
                out.push(string_from("md"));
                assert(out.deep_view() =~= target.take(2));
            } else {
                assert(out.deep_view() =~= target.take(k + 2));
            }
        }
        assert(target.take(n + 1) =~= target);
        out
    } else {
        args
    }
}

/// Desugaring twice is desugaring once.
pub proof fn law_desugar_idempotent(args: Seq<Seq<char>>)
    ensures
        desugar_spec(desugar_spec(args)) == desugar_spec(args),
{
    let d = desugar_spec(args);
    if d != args {
        assert(d[1] == "md"@);
        assert(is_known_subcommand_spec(d[1]));
    }
}

/// Desugaring only ever adds the `md` subcommand right after the program name.
pub proof fn law_desugar_keeps_arguments(args: Seq<Seq<char>>)
    ensures
        desugar_spec(args) == args || (desugar_spec(args) == args.insert(1, "md"@) && args.len()
            > 1),
{
}

} // verus!
