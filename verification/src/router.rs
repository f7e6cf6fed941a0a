//! The adapter registry: adapters are tried in registration order and the
//! first one whose `matches` accepts the URL serves it.
use vstd::prelude::*;
use crate::adapter::Adapter;
use crate::error::PipelineError;
use crate::weburl::{Url, UrlView};

verus! {

/// The index of the first adapter at or after `i` that matches `url`.
pub open spec fn first_match_from<A: Adapter>(s: Seq<A>, url: UrlView, i: int) -> Option<int>
    decreases s.len() - i,
{
    if i < 0 || i >= s.len() {
        None
    } else if s[i].spec_matches(url) {
        Some(i)
    } else {
        first_match_from(s, url, i + 1)
    }
}

/// The index of the adapter that serves `url`: the first that matches it.
pub open spec fn first_match<A: Adapter>(s: Seq<A>, url: UrlView) -> Option<int> {
    first_match_from(s, url, 0)
}

/// The host text reported when no adapter matches: the URL's host, or empty.
pub open spec fn host_or_empty(url: UrlView) -> Seq<char> {
    match url.host {
        Some(h) => h,
        None => Seq::<char>::empty(),
    }
}

/// Adapters in registration order.
pub struct Registry<A> {
    adapters: Vec<A>,
}

impl<A> View for Registry<A> {
    type V = Seq<A>;

    closed spec fn view(&self) -> Seq<A> {
        self.adapters@
    }
}

impl<A: Adapter> Registry<A> {
    /// An empty registry.
    pub fn new() -> (r: Self)
        ensures
            r@ == Seq::<A>::empty(),
    {
        Registry { adapters: Vec::new() }
    }

    /// Adds an adapter after all registered ones.
    pub fn register(&mut self, adapter: A)
        ensures
            final(self)@ == old(self)@.push(adapter),
    {
        self.adapters.push(adapter);
    }

    /// The position of the adapter that serves `url`.
    pub fn route_index(&self, url: &Url) -> (r: Option<usize>)
        ensures
            match r {
                Some(i) => first_match(self@, url@) == Some(i as int),
                None => first_match(self@, url@) is None,
            },
    {
        let n = self.adapters.len();
        let mut i: usize = 0;
        while i < n
            invariant
                n == self@.len(),
                i <= n,
                first_match_from(self@, url@, i as int) == first_match(self@, url@),
            decreases n - i,
        {
            if self.adapters[i].matches(url) {
                return Some(i);
            }
            i = i + 1;
        }
        None
    }

    /// The adapter that serves `url`: the first registered one whose
    /// `matches` accepts it; `AdapterNotFound` with the URL's host (empty when
    /// it has none) when none does.
    pub fn route(&self, url: &Url) -> (r: Result<&A, PipelineError>)
        ensures
            match r {
                Ok(a) => exists|i: int| first_match(self@, url@) == Some(i) && *a == self@[i],
                Err(e) => first_match(self@, url@) is None && (e matches PipelineError::AdapterNotFound {
                    host,
                } && host@ == host_or_empty(url@)),
            },
    {
        match self.route_index(url) {
            Some(i) => {
                proof {
                    lemma_first_match_from_in_range(self@, url@, 0);
                }
                Ok(&self.adapters[i])
            },
            None => {
                let host = match url.host_str() {
                    Some(h) => crate::strs::string_from(h),
                    None => String::new(),
                };
                Err(PipelineError::AdapterNotFound { host })
            },
        }
    }

    /// The adapter at position `i`.
    pub fn get(&self, i: usize) -> (a: &A)
        requires
            i < self@.len(),
        ensures
            *a == self@[i as int],
    {
        &self.adapters[i]
    }

    /// Number of registered adapters.
    pub fn len(&self) -> (n: usize)
        ensures
            n == self@.len(),
    {
        self.adapters.len()
    }

    /// Whether no adapter is registered.
    pub fn is_empty(&self) -> (b: bool)
        ensures
            b == (self@.len() == 0),
    {
        self.adapters.len() == 0
    }
}

impl<A: Adapter> Default for Registry<A> {
    fn default() -> (r: Self)
        ensures
            r@ == Seq::<A>::empty(),
    {
        Registry::new()
    }
}

pub proof fn lemma_first_match_from_in_range<A: Adapter>(s: Seq<A>, url: UrlView, i: int)
    requires
        0 <= i,
    ensures
        first_match_from(s, url, i) matches Some(k) ==> i <= k < s.len() && s[k].spec_matches(url),
        first_match_from(s, url, i) is None ==> forall|k: int|
            i <= k < s.len() ==> !(#[trigger] s[k].spec_matches(url)),
        first_match_from(s, url, i) matches Some(k) ==> forall|j: int|
            i <= j < k ==> !(#[trigger] s[j].spec_matches(url)),
    decreases s.len() - i,
{
    if i < s.len() && !s[i].spec_matches(url) {
        lemma_first_match_from_in_range(s, url, i + 1);
    }
}

/// The adapter chosen for a URL is the first registered one that matches it:
/// `first_match` is `Some(i)` exactly when adapter `i` matches and no earlier
/// one does, and `None` exactly when none matches.
pub proof fn law_first_matching_adapter_wins<A: Adapter>(s: Seq<A>, url: UrlView, i: int)
    requires
        0 <= i < s.len(),
    ensures
        first_match(s, url) == Some(i) <==> (s[i].spec_matches(url) && forall|j: int|
            0 <= j < i ==> !(#[trigger] s[j].spec_matches(url))),
        first_match(s, url) is None <==> forall|k: int|
            0 <= k < s.len() ==> !(#[trigger] s[k].spec_matches(url)),
{
    lemma_first_match_from_in_range(s, url, 0);
    if s[i].spec_matches(url) && forall|j: int| 0 <= j < i ==> !(#[trigger] s[j].spec_matches(url)) {
        match first_match(s, url) {
            Some(k) => {
                if k < i {
                    assert(!s[k].spec_matches(url));
                } else if k > i {
                    assert(!s[i].spec_matches(url));
                }
            },
            None => {
                assert(!s[i].spec_matches(url));
            },
        }
    }
    if first_match(s, url) is None {
    } else {
        let k = first_match(s, url)->0;
        assert(s[k].spec_matches(url));
    }
}

/// An adapter registered before all others that matches every URL serves
/// every URL, hiding all adapters registered after it.
pub proof fn law_catch_all_first_serves_everything<A: Adapter>(s: Seq<A>, url: UrlView)
    requires
        s.len() > 0,
        forall|u: UrlView| #[trigger] s[0].spec_matches(u),
    ensures
        first_match(s, url) == Some(0int),
{
    assert(s[0].spec_matches(url));
}

/// Adding an adapter after a registry that already serves `url` does not
/// change which adapter serves it.
pub proof fn law_register_keeps_existing_routes<A: Adapter>(s: Seq<A>, a: A, url: UrlView)
    requires
        first_match(s, url) is Some,
    ensures
        first_match(s.push(a), url) == first_match(s, url),
{
    lemma_first_match_from_in_range(s, url, 0);
    let k = first_match(s, url)->0;
    lemma_first_match_from_in_range(s.push(a), url, 0);
    assert(s.push(a)[k] == s[k]);
    match first_match(s.push(a), url) {
        Some(m) => {
            if m < k {
                assert(s.push(a)[m] == s[m]);
            } else if m > k {
                assert(!s.push(a)[k].spec_matches(url));
            }
        },
        None => {
            assert(!s.push(a)[k].spec_matches(url));
        },
    }
}

} // verus!
