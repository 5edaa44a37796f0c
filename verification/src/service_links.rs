//! The catalog of outbound service links: named links, kept in name order,
//! added, replaced, removed, looked up and listed page by page.

use vstd::prelude::*;

use crate::accounts::RequestError;
use crate::process_groups::{lemma_lex_transitive, lemma_lex_trichotomy, lex_lt, str_lt};
use crate::text::{concat, owned, str_eq};

verus! {

/// Names strictly increase along the catalog.
pub open spec fn names_sorted<T>(s: Seq<(Seq<char>, T)>) -> bool {
    forall|i: int, j: int| 0 <= i < j < s.len() ==> lex_lt(s[i].0, s[j].0)
}

/// The link named `name`, if any.
pub open spec fn link_named<T>(s: Seq<(Seq<char>, T)>, name: Seq<char>) -> Option<T> {
    if exists|i: int| 0 <= i < s.len() && s[i].0 == name {
        Some(s[choose|i: int| 0 <= i < s.len() && s[i].0 == name].1)
    } else {
        None
    }
}

/// Where a page starts: at the first link named after `token` (at the start
/// for an empty token).
pub open spec fn page_start<T>(s: Seq<(Seq<char>, T)>, token: Seq<char>) -> int {
    if token.len() == 0 {
        0
    } else if exists|i: int| 0 <= i < s.len() && lex_lt(token, s[i].0) {
        choose|i: int| 0 <= i < s.len() && lex_lt(token, s[i].0) && forall|j: int| 0 <= j < i ==> !lex_lt(token, s[j].0)
    } else {
        s.len() as int
    }
}

/// The number of links on a page of size `page_size` (unbounded when not positive).
pub open spec fn page_len(page_size: i32, start: int, n: int) -> int {
    if page_size <= 0 || start + page_size >= n { n - start } else { page_size as int }
}

/// A catalog of named links with payloads of type `T`.
///
/// Entries are held in a vector kept unique by name, in name order, rather than in a map
/// keyed by it: the key is text, and for a map keyed by `String` the
/// verifier has no model of the keys to prove these contracts against.
pub struct LinkCatalog<T> {
    links: Vec<(String, T)>,
}

impl<T> View for LinkCatalog<T> {
    type V = Seq<(Seq<char>, T)>;

    closed spec fn view(&self) -> Seq<(Seq<char>, T)> {
        self.links@.map_values(|e: (String, T)| (e.0@, e.1))
    }
}

impl<T> LinkCatalog<T> {
    /// An empty catalog.
    pub fn new() -> (c: LinkCatalog<T>)
        ensures
            c@ == Seq::<(Seq<char>, T)>::empty(),
    {
        let c = LinkCatalog { links: Vec::new() };
        assert(c@ =~= Seq::<(Seq<char>, T)>::empty());
        c
    }

    /// Number of links.
    pub fn len(&self) -> (n: usize)
        ensures
            n == self@.len(),
    {
        self.links.len()
    }

    /// The position of the first link not named before `name`.
    fn lower_bound(&self, name: &str) -> (i: usize)
        requires
            names_sorted(self@),
        ensures
            i <= self@.len(),
            forall|j: int| 0 <= j < i ==> lex_lt(#[trigger] self@[j].0, name@),
            i < self@.len() ==> !lex_lt(self@[i as int].0, name@),
    {
        let mut i: usize = 0;
        while i < self.links.len() && str_lt(self.links[i].0.as_str(), name)
            invariant
                names_sorted(self@),
                i <= self.links@.len(),
                self@.len() == self.links@.len(),
                forall|j: int| 0 <= j < i ==> lex_lt(#[trigger] self@[j].0, name@),
            decreases self.links.len() - i,
        {
            assert(self@[i as int].0 == self.links@[i as int].0@);
            i = i + 1;
        }
        proof {
            if i < self@.len() {
                assert(self@[i as int].0 == self.links@[i as int].0@);
            }
        }
        i
    }

    /// The link named `name`, if any.
    fn find(&self, name: &str) -> (r: Option<usize>)
        requires
            names_sorted(self@),
        ensures
            match r {
                Some(i) => i < self@.len() && self@[i as int].0 == name@ && link_named(self@, name@) == Some(self@[i as int].1),
                None => link_named(self@, name@).is_none(),
            },
    {
        let i = self.lower_bound(name);
        if i < self.links.len() && str_eq(self.links[i].0.as_str(), name) {
            proof {
                assert(self@[i as int].0 == name@);
                let k = choose|k: int| 0 <= k < self@.len() && self@[k].0 == name@;
                if k != i {
                    if k < i {
                        assert(lex_lt(self@[k].0, name@));
                        lemma_lex_trichotomy(name@, name@);
                    } else {
                        assert(lex_lt(self@[i as int].0, self@[k].0));
                        lemma_lex_trichotomy(name@, name@);
                    }
                }
            }
            Some(i)
        } else {
            proof {
                assert forall|k: int| 0 <= k < self@.len() implies self@[k].0 != name@ by {
                    if k < i {
                        lemma_lex_trichotomy(name@, name@);
                    } else {
                        if i < self@.len() && k > i {
                            assert(lex_lt(self@[i as int].0, self@[k].0));
                            lemma_lex_trichotomy(self@[i as int].0, name@);
                            if self@[k].0 == name@ {
                                assert(lex_lt(self@[i as int].0, name@));
                            }
                        } else if k == i {
                            assert(self@[i as int].0 == self.links@[i as int].0@);
                        }
                    }
                }
            }
            None
        }
    }

    /// Adds link `name`, replacing a link of that name.
    pub fn insert(&mut self, name: String, link: T)
        requires
            names_sorted(old(self)@),
        ensures
            names_sorted(final(self)@),
            link_named(final(self)@, name@) == Some(link),
            forall|other: Seq<char>| other != name@ ==> link_named(final(self)@, other) == link_named(old(self)@, other),
    {
        let ghost s0 = self@;
        let ghost nv = name@;
        let i = self.lower_bound(name.as_str());
        let exists_here = i < self.links.len() && str_eq(self.links[i].0.as_str(), name.as_str());
        if exists_here {
            self.links.set(i, (name, link));
            proof {
                assert(self@ =~= s0.update(i as int, (nv, link)));
            }
        } else {
            self.links.insert(i, (name, link));
            proof {
                assert(self@ =~= s0.insert(i as int, (nv, link)));
                if i < s0.len() {
                    assert(s0[i as int].0 == self.links@[i as int + 1].0@);
                    lemma_lex_trichotomy(s0[i as int].0, nv);
                }
            }
        }
        proof {
            let s = self@;
            assert forall|a: int, b: int| 0 <= a < b < s.len() implies lex_lt(s[a].0, s[b].0) by {
                if exists_here {
                } else {
                    if b < i {
                    } else if a < i && b == i {
                    } else if a <= i {
                        assert(lex_lt(nv, s0[b - 1].0)) by {
                            if b - 1 > i {
                                lemma_lex_transitive(nv, s0[i as int].0, s0[b - 1].0);
                            }
                        }
                        if a < i {
                            lemma_lex_transitive(s[a].0, nv, s[b].0);
                        }
                    } else {
                    }
                }
            }
            let p = if exists_here { i as int } else { i as int };
            assert(s[p].0 == nv);
            lemma_unique_name(s, p);
            assert forall|other: Seq<char>| other != nv implies link_named(s, other) == link_named(s0, other) by {
                if exists|k: int| 0 <= k < s0.len() && s0[k].0 == other {
                    let k = choose|k: int| 0 <= k < s0.len() && s0[k].0 == other;
                    lemma_unique_name(s0, k);
                    let k2 = if exists_here || k < i { k } else { k + 1 };
                    assert(s[k2] == s0[k]);
                    lemma_unique_name(s, k2);
                }
                if exists|k: int| 0 <= k < s.len() && s[k].0 == other {
                    let k = choose|k: int| 0 <= k < s.len() && s[k].0 == other;
                    assert(k != p);
                    let k0 = if exists_here || k < i { k } else { k - 1 };
                    assert(s[k] == s0[k0]);
                }
            }
        }
    }

    /// Removes link `name`; returns whether it was there.
    pub fn remove(&mut self, name: &str) -> (removed: bool)
        requires
            names_sorted(old(self)@),
        ensures
            names_sorted(final(self)@),
            removed == link_named(old(self)@, name@).is_some(),
            link_named(final(self)@, name@).is_none(),
            forall|other: Seq<char>| other != name@ ==> link_named(final(self)@, other) == link_named(old(self)@, other),
    {
        let ghost s0 = self@;
        match self.find(name) {
            Some(i) => {
                self.links.remove(i);
                proof {
                    let s = self@;
                    assert(s =~= s0.remove(i as int));
                    assert forall|a: int, b: int| 0 <= a < b < s.len() implies lex_lt(s[a].0, s[b].0) by {
                        let a0 = if a < i { a } else { a + 1 };
                        let b0 = if b < i { b } else { b + 1 };
                        assert(s[a] == s0[a0]);
                        assert(s[b] == s0[b0]);
                    }
                    if exists|k: int| 0 <= k < s.len() && s[k].0 == name@ {
                        let k = choose|k: int| 0 <= k < s.len() && s[k].0 == name@;
                        let k0 = if k < i { k } else { k + 1 };
                        assert(s[k] == s0[k0]);
                        lemma_lex_trichotomy(name@, name@);
                        if k0 < i {
                            assert(lex_lt(s0[k0].0, s0[i as int].0));
                        } else {
                            assert(lex_lt(s0[i as int].0, s0[k0].0));
                        }
                    }
                    assert forall|other: Seq<char>| other != name@ implies link_named(s, other) == link_named(s0, other) by {
                        if exists|k: int| 0 <= k < s0.len() && s0[k].0 == other {
                            let k = choose|k: int| 0 <= k < s0.len() && s0[k].0 == other;
                            assert(k != i);
                            let k2 = if k < i { k } else { k - 1 };
                            assert(s[k2] == s0[k]);
                            lemma_unique_name(s, k2);
                            lemma_unique_name(s0, k);
                        }
                        if exists|k: int| 0 <= k < s.len() && s[k].0 == other {
                            let k = choose|k: int| 0 <= k < s.len() && s[k].0 == other;
                            let k0 = if k < i { k } else { k + 1 };
                            assert(s[k] == s0[k0]);
                        }
                    }
                }
                true
            },
            None => false,
        }
    }

    /// The link named `name`, if any.
    pub fn get(&self, name: &str) -> (r: Option<&T>)
        requires
            names_sorted(self@),
        ensures
            match r {
                Some(l) => link_named(self@, name@) == Some(*l),
                None => link_named(self@, name@).is_none(),
            },
    {
        match self.find(name) {
            Some(i) => Some(&self.links[i].1),
            None => None,
        }
    }

    /// All links, in name order.
    pub fn links(&self) -> (r: Vec<&T>)
        ensures
            r@.len() == self@.len(),
            forall|i: int| 0 <= i < r@.len() ==> *r@[i] == self@[i].1,
    {
        let mut r: Vec<&T> = Vec::new();
        let mut i: usize = 0;
        while i < self.links.len()
            invariant
                i <= self.links@.len(),
                r@.len() == i,
                forall|k: int| 0 <= k < i ==> *r@[k] == self@[k].1,
            decreases self.links.len() - i,
        {
            r.push(&self.links[i].1);
            i = i + 1;
        }
        r
    }

    /// One page of links in name order: from the first link named after
    /// `page_token`, at most `page_size` of them (all when not positive).
    /// The next-page token is the last name of a full page followed by more
    /// links, else empty.
    pub fn list_page(&self, page_size: i32, page_token: &str) -> (r: (Vec<&T>, String))
        requires
            names_sorted(self@),
        ensures
            ({
                let n = self@.len() as int;
                let start = page_start(self@, page_token@);
                let len = page_len(page_size, start, n);
                &&& 0 <= start <= n
                &&& r.0@.len() == len
                &&& forall|i: int| 0 <= i < len ==> *r.0@[i] == self@[start + i].1
                &&& r.1@ == if page_size > 0 && len == page_size && start + page_size < n {
                        self@[start + len - 1].0
                    } else {
                        Seq::<char>::empty()
                    }
            }),
    {
        let n = self.links.len();
        let mut start: usize = 0;
        if page_token.unicode_len() > 0 {
            while start < n && !str_lt(page_token, self.links[start].0.as_str())
                invariant
                    start <= n,
                    n == self@.len(),
                    page_token@.len() > 0,
                    forall|j: int| 0 <= j < start ==> !lex_lt(page_token@, #[trigger] self@[j].0),
                decreases n - start,
            {
                assert(self@[start as int].0 == self.links@[start as int].0@);
                start = start + 1;
            }
            proof {
                if start < n {
                    assert(self@[start as int].0 == self.links@[start as int].0@);
                    assert(lex_lt(page_token@, self@[start as int].0));
                    let c = choose|i: int| 0 <= i < self@.len() && lex_lt(page_token@, self@[i].0)
                        && forall|j: int| 0 <= j < i ==> !lex_lt(page_token@, self@[j].0);
                    if c < start {
                        assert(!lex_lt(page_token@, self@[c].0));
                    } else if c > start {
                        assert(!lex_lt(page_token@, self@[start as int].0));
                    }
                } else {
                    assert(!(exists|i: int| 0 <= i < self@.len() && lex_lt(page_token@, self@[i].0)));
                }
            }
        }
        let end: usize = if page_size <= 0 || (page_size as usize) >= n - start { n } else { start + page_size as usize };
        let mut page: Vec<&T> = Vec::new();
        let mut i: usize = start;
        while i < end
            invariant
                start <= i <= end <= n,
                n == self@.len(),
                page@.len() == i - start,
                forall|k: int| 0 <= k < i - start ==> *page@[k] == self@[start + k].1,
            decreases end - i,
        {
            page.push(&self.links[i].1);
            i = i + 1;
        }
        let full = page_size > 0 && page.len() == page_size as usize && start + (page_size as usize) < n;
        let token = if full {
            self.links[end - 1].0.clone()
        } else {
            String::new()
        };
        (page, token)
    }
}

/// In a catalog sorted by name, the link at `p` is the one found by its name.
proof fn lemma_unique_name<T>(s: Seq<(Seq<char>, T)>, p: int)
    requires
        names_sorted(s),
        0 <= p < s.len(),
    ensures
        link_named(s, s[p].0) == Some(s[p].1),
{
    let k = choose|k: int| 0 <= k < s.len() && s[k].0 == s[p].0;
    if k != p {
        lemma_lex_trichotomy(s[p].0, s[p].0);
    }
}

/// No link of the catalog has an empty name.
pub open spec fn names_nonempty<T>(s: Seq<(Seq<char>, T)>) -> bool {
    forall|k: int| 0 <= k < s.len() ==> (#[trigger] s[k]).0.len() > 0
}

/// In a catalog sorted by name, a page asked for with the name of the link
/// at `k` starts right after that link.
pub proof fn lemma_page_after_name<T>(s: Seq<(Seq<char>, T)>, k: int)
    requires
        names_sorted(s),
        0 <= k < s.len(),
        s[k].0.len() > 0,
    ensures
        page_start(s, s[k].0) == k + 1,
{
    let t = s[k].0;
    lemma_lex_trichotomy(t, t);
    assert forall|i: int| 0 <= i <= k && 0 <= i < s.len() implies !lex_lt(t, #[trigger] s[i].0) by {
        if i < k {
            lemma_lex_trichotomy(s[i].0, t);
        }
    }
    if k + 1 < s.len() {
        assert(lex_lt(t, s[k + 1].0));
        let c = choose|i: int| 0 <= i < s.len() && lex_lt(t, s[i].0) && forall|j: int| 0 <= j < i ==> !lex_lt(t, s[j].0);
        if c > k + 1 {
            assert(!lex_lt(t, s[k + 1].0));
        }
    }
}

/// Paging through a catalog whose links are named and sorted by name, with a
/// positive page size: the page for `token` holds the links from
/// `page_start` on; its next-page token is empty exactly when the page reaches
/// the end of the catalog, and otherwise the next page starts right after it.
/// Following the tokens from the empty one (which starts at the first link)
/// thus lists every link once, in name order, and ends with an empty token.
pub proof fn lemma_paging_continues<T>(s: Seq<(Seq<char>, T)>, page_size: i32, token: Seq<char>)
    requires
        names_sorted(s),
        names_nonempty(s),
        page_size > 0,
    ensures
        ({
            let n = s.len() as int;
            let start = page_start(s, token);
            let len = page_len(page_size, start, n);
            let next = if page_size > 0 && len == page_size && start + page_size < n {
                s[start + len - 1].0
            } else {
                Seq::<char>::empty()
            };
            &&& page_start(s, Seq::<char>::empty()) == 0
            &&& 0 <= start <= n
            &&& 0 <= len
            &&& start < n ==> len > 0
            &&& (next.len() == 0 <==> start + len == n)
            &&& next.len() > 0 ==> page_start(s, next) == start + len
        }),
{
    let n = s.len() as int;
    let start = page_start(s, token);
    if token.len() > 0 && exists|i: int| 0 <= i < s.len() && lex_lt(token, s[i].0) {
        let c = choose|i: int| 0 <= i < s.len() && lex_lt(token, s[i].0) && forall|j: int| 0 <= j < i ==> !lex_lt(token, s[j].0);
        assert(0 <= c < n) by {
            let w = choose|i: int| 0 <= i < s.len() && lex_lt(token, s[i].0);
            lemma_first_after(s, token, w);
        }
    }
    let len = page_len(page_size, start, n);
    if len == page_size && start + page_size < n {
        assert(s[start + len - 1].0.len() > 0);
        lemma_page_after_name(s, start + len - 1);
    }
}

/// The next-page token of the page for `token` (see [`LinkCatalog::list_page`]).
#[verifier::opaque]
pub open spec fn next_page_token<T>(s: Seq<(Seq<char>, T)>, page_size: i32, token: Seq<char>) -> Seq<char> {
    let n = s.len() as int;
    let start = page_start(s, token);
    let len = page_len(page_size, start, n);
    if page_size > 0 && len == page_size && start + page_size < n {
        s[start + len - 1].0
    } else {
        Seq::<char>::empty()
    }
}

/// Where the page for `token` ends.
#[verifier::opaque]
pub open spec fn page_end<T>(s: Seq<(Seq<char>, T)>, page_size: i32, token: Seq<char>) -> int {
    let start = page_start(s, token);
    start + page_len(page_size, start, s.len() as int)
}

/// The links of the pages for the tokens `ts`, one page after the other.
pub open spec fn pages_along<T>(s: Seq<(Seq<char>, T)>, page_size: i32, ts: Seq<Seq<char>>) -> Seq<(Seq<char>, T)>
    decreases ts.len(),
{
    if ts.len() == 0 {
        Seq::empty()
    } else {
        pages_along(s, page_size, ts.drop_last())
            + s.subrange(page_start(s, ts.last()), page_end(s, page_size, ts.last()))
    }
}

/// One step of paging, in terms of [`page_end`] and [`next_page_token`].
proof fn lemma_paging_step<T>(s: Seq<(Seq<char>, T)>, page_size: i32, t: Seq<char>)
    requires
        names_sorted(s),
        names_nonempty(s),
        page_size > 0,
    ensures
        page_start(s, Seq::<char>::empty()) == 0,
        0 <= page_start(s, t) <= page_end(s, page_size, t) <= s.len(),
        next_page_token(s, page_size, t).len() == 0 <==> page_end(s, page_size, t) == s.len(),
        next_page_token(s, page_size, t).len() > 0 ==> page_start(s, next_page_token(s, page_size, t)) == page_end(s, page_size, t),
{
    reveal(next_page_token);
    reveal(page_end);
    lemma_paging_continues(s, page_size, t);
}

/// Following the next-page tokens from the empty token through a catalog
/// whose links are named and sorted by name, with a positive page size: the
/// pages seen so far are exactly the first links of the catalog, in name
/// order, each once; and once a page comes back with an empty token, every
/// link has been listed.
pub proof fn lemma_paging_lists_each_link_once<T>(s: Seq<(Seq<char>, T)>, page_size: i32, ts: Seq<Seq<char>>)
    requires
        names_sorted(s),
        names_nonempty(s),
        page_size > 0,
        ts.len() > 0,
        ts[0].len() == 0,
        forall|i: int| 0 <= i < ts.len() - 1 ==> ts[i + 1] == next_page_token(s, page_size, #[trigger] ts[i])
            && ts[i + 1].len() > 0,
    ensures
        pages_along(s, page_size, ts) == s.subrange(0, page_end(s, page_size, ts.last())),
        next_page_token(s, page_size, ts.last()).len() == 0 ==> pages_along(s, page_size, ts) == s,
    decreases ts.len(),
{
    let last = ts.last();
    lemma_paging_step(s, page_size, last);
    let e = page_end(s, page_size, last);
    let b = page_start(s, last);
    if ts.len() == 1 {
        assert(last == ts[0]);
        assert(b == 0);
        assert(pages_along(s, page_size, ts) == pages_along(s, page_size, ts.drop_last()) + s.subrange(b, e));
        assert(pages_along(s, page_size, ts.drop_last()) =~= Seq::<(Seq<char>, T)>::empty());
        assert(pages_along(s, page_size, ts) =~= s.subrange(0, e));
    } else {
        let rest = ts.drop_last();
        assert forall|i: int| 0 <= i < rest.len() - 1 implies rest[i + 1] == next_page_token(s, page_size, #[trigger] rest[i])
            && rest[i + 1].len() > 0 by {
            assert(rest[i] == ts[i]);
            assert(rest[i + 1] == ts[i + 1]);
        }
        lemma_paging_lists_each_link_once(s, page_size, rest);
        let prev = rest.last();
        lemma_paging_step(s, page_size, prev);
        assert(prev == ts[ts.len() - 2]);
        assert(last == next_page_token(s, page_size, prev));
        assert(b == page_end(s, page_size, prev));
        assert(pages_along(s, page_size, ts) == pages_along(s, page_size, rest) + s.subrange(b, e));
        assert(pages_along(s, page_size, ts) =~= s.subrange(0, e));
    }
    if next_page_token(s, page_size, last).len() == 0 {
        assert(s.subrange(0, s.len() as int) =~= s);
    }
}

/// The first link named after `token` exists once some link is.
proof fn lemma_first_after<T>(s: Seq<(Seq<char>, T)>, token: Seq<char>, w: int)
    requires
        0 <= w < s.len(),
        lex_lt(token, s[w].0),
    ensures
        exists|i: int| 0 <= i < s.len() && lex_lt(token, s[i].0) && forall|j: int| 0 <= j < i ==> !lex_lt(token, s[j].0),
    decreases w,
{
    if exists|j: int| 0 <= j < w && lex_lt(token, s[j].0) {
        let j = choose|j: int| 0 <= j < w && lex_lt(token, s[j].0);
        lemma_first_after(s, token, j);
    } else {
        assert(forall|j: int| 0 <= j < w ==> !lex_lt(token, s[j].0));
    }
}

// ============================================================================
// Service-link rules
// ============================================================================

/// A service link to an outside service.
#[derive(Debug)]
pub struct ServiceLink {
    pub name: String,
    pub base_url: String,
    /// The transport code of the link (HTTP or another).
    pub transport: i32,
}

impl Clone for ServiceLink {
    fn clone(&self) -> (r: Self)
        ensures
            r == *self,
    {
        ServiceLink { name: self.name.clone(), base_url: self.base_url.clone(), transport: self.transport }
    }
}

/// The link catalog of a node.
pub struct ServiceLinks {
    catalog: LinkCatalog<ServiceLink>,
}

/// A link is usable with a name and a base URL.
pub fn check_link(link: &Option<ServiceLink>) -> (r: Result<(), RequestError>)
    ensures
        match link {
            None => r matches Err(RequestError::InvalidArgument(m)) && m@ == "link is required"@,
            Some(l) => if l.name@.len() == 0 {
                r matches Err(RequestError::InvalidArgument(m)) && m@ == "link.name must not be empty"@
            } else if l.base_url@.len() == 0 {
                r matches Err(RequestError::InvalidArgument(m)) && m@ == "link.base_url must not be empty"@
            } else {
                r is Ok
            },
        },
{
    match link {
        None => Err(RequestError::InvalidArgument(owned("link is required"))),
        Some(l) => {
            if l.name.unicode_len() == 0 {
                Err(RequestError::InvalidArgument(owned("link.name must not be empty")))
            } else if l.base_url.unicode_len() == 0 {
                Err(RequestError::InvalidArgument(owned("link.base_url must not be empty")))
            } else {
                Ok(())
            }
        },
    }
}

/// The answer for a link that does not exist: `service link 'name' not found`.
pub fn link_not_found(name: &str) -> (e: RequestError)
    ensures
        e matches RequestError::NotFound(m) && m@ == "service link '"@ + name@ + "' not found"@,
{
    let mut m = concat("service link '", name);
    m.append("' not found");
    RequestError::NotFound(m)
}

impl View for ServiceLinks {
    type V = Seq<(Seq<char>, ServiceLink)>;

    closed spec fn view(&self) -> Seq<(Seq<char>, ServiceLink)> {
        self.catalog@
    }
}

/// Links are kept in name order, and every link has a name.
pub open spec fn links_wf(s: Seq<(Seq<char>, ServiceLink)>) -> bool {
    names_sorted(s) && names_nonempty(s)
}

/// Every link has a name exactly when no link is found under the empty name.
proof fn lemma_nonempty_names<T>(s: Seq<(Seq<char>, T)>)
    ensures
        names_nonempty(s) <==> link_named(s, Seq::<char>::empty()) is None,
{
    if !names_nonempty(s) {
        let k = choose|k: int| 0 <= k < s.len() && !((#[trigger] s[k]).0.len() > 0);
        assert(s[k].0 =~= Seq::<char>::empty());
    }
    if link_named(s, Seq::<char>::empty()) is Some {
        let k = choose|k: int| 0 <= k < s.len() && s[k].0 == Seq::<char>::empty();
        assert(!(s[k].0.len() > 0));
    }
}

/// Following the next-page tokens of a service-link listing from the empty
/// token lists every link once, in name order (see
/// [`lemma_paging_lists_each_link_once`]).
pub proof fn lemma_service_link_pages(links: Seq<(Seq<char>, ServiceLink)>, page_size: i32, ts: Seq<Seq<char>>)
    requires
        links_wf(links),
        page_size > 0,
        ts.len() > 0,
        ts[0].len() == 0,
        forall|i: int| 0 <= i < ts.len() - 1 ==> ts[i + 1] == next_page_token(links, page_size, #[trigger] ts[i])
            && ts[i + 1].len() > 0,
    ensures
        pages_along(links, page_size, ts) == links.subrange(0, page_end(links, page_size, ts.last())),
        next_page_token(links, page_size, ts.last()).len() == 0 ==> pages_along(links, page_size, ts) == links,
{
    lemma_paging_lists_each_link_once(links, page_size, ts);
}

impl ServiceLinks {
    /// The catalog seeded with the configured links that have a name.
    pub fn seeded(configured: Vec<ServiceLink>) -> (s: ServiceLinks)
        ensures
            links_wf(s@),
            forall|name: Seq<char>| name.len() > 0 && (exists|i: int| 0 <= i < configured@.len() && configured@[i].name@ == name)
                ==> link_named(s@, name) is Some,
    {
        let mut catalog: LinkCatalog<ServiceLink> = LinkCatalog::new();
        let mut i: usize = 0;
        while i < configured.len()
            invariant
                names_sorted(catalog@),
                names_nonempty(catalog@),
                i <= configured@.len(),
                forall|name: Seq<char>| name.len() > 0 && (exists|k: int| 0 <= k < i && configured@[k].name@ == name)
                    ==> link_named(catalog@, name) is Some,
            decreases configured.len() - i,
        {
            let link = configured[i].clone();
            proof {
                assert(link.name@ == configured@[i as int].name@);
            }
            if link.name.unicode_len() > 0 {
                let name = link.name.clone();
                let ghost before = catalog@;
                proof {
                    lemma_nonempty_names(before);
                }
                catalog.insert(name, link);
                proof {
                    assert(name@ != Seq::<char>::empty());
                    lemma_nonempty_names(catalog@);
                }
            }
            i = i + 1;
        }
        ServiceLinks { catalog }
    }

    /// Adds (or replaces) a link after checking it.
    pub fn add_link(&mut self, link: Option<ServiceLink>) -> (r: Result<ServiceLink, RequestError>)
        requires
            links_wf(old(self)@),
        ensures
            links_wf(final(self)@),
            r is Err ==> final(self)@ == old(self)@,
            match link {
                None => r is Err,
                Some(l) => (l.name@.len() == 0 || l.base_url@.len() == 0) == r is Err,
            },
            r matches Ok(l) ==> link_named(final(self)@, l.name@) == Some(l)
                && forall|other: Seq<char>| other != l.name@ ==> link_named(final(self)@, other) == link_named(old(self)@, other),
    {
        match check_link(&link) {
            Err(e) => Err(e),
            Ok(()) => {
                let l = link.unwrap();
                let name = l.name.clone();
                let stored = l.clone();
                proof {
                    assert(name@ == l.name@);
                    lemma_nonempty_names(self@);
                }
                self.catalog.insert(name, stored);
                proof {
                    assert(l.name@ != Seq::<char>::empty());
                    lemma_nonempty_names(self@);
                }
                Ok(l)
            },
        }
    }

    /// Removes link `name`.
    pub fn remove_link(&mut self, name: &str) -> (r: Result<(), RequestError>)
        requires
            links_wf(old(self)@),
        ensures
            links_wf(final(self)@),
            name@.len() == 0 ==> (r matches Err(RequestError::InvalidArgument(m)) && m@ == "name must not be empty"@)
                && final(self)@ == old(self)@,
            name@.len() > 0 && link_named(old(self)@, name@).is_none() ==>
                (r matches Err(RequestError::NotFound(m)) && m@ == "service link '"@ + name@ + "' not found"@),
            name@.len() > 0 && link_named(old(self)@, name@).is_some() ==> r is Ok,
            link_named(final(self)@, name@).is_none() || name@.len() == 0,
            forall|other: Seq<char>| other != name@ ==> link_named(final(self)@, other) == link_named(old(self)@, other),
    {
        if name.unicode_len() == 0 {
            return Err(RequestError::InvalidArgument(owned("name must not be empty")));
        }
        proof {
            lemma_nonempty_names(self@);
        }
        let removed = self.catalog.remove(name);
        proof {
            assert(name@ != Seq::<char>::empty());
            lemma_nonempty_names(self@);
        }
        if removed {
            Ok(())
        } else {
            Err(link_not_found(name))
        }
    }

    /// The link named `name`.
    pub fn get_link(&self, name: &str) -> (r: Result<&ServiceLink, RequestError>)
        requires
            links_wf(self@),
        ensures
            match link_named(self@, name@) {
                Some(l) => r matches Ok(x) && *x == l,
                None => r matches Err(RequestError::NotFound(m)) && m@ == "service link '"@ + name@ + "' not found"@,
            },
    {
        match self.catalog.get(name) {
            Some(l) => Ok(l),
            None => Err(link_not_found(name)),
        }
    }

    /// All links in name order.
    pub fn all_links(&self) -> (r: Vec<&ServiceLink>)
        ensures
            r@.len() == self@.len(),
            forall|i: int| 0 <= i < r@.len() ==> *r@[i] == self@[i].1,
    {
        self.catalog.links()
    }

    /// One page of links (see [`LinkCatalog::list_page`]).
    pub fn list_links(&self, page_size: i32, page_token: &str) -> (r: (Vec<&ServiceLink>, String))
        requires
            links_wf(self@),
        ensures
            ({
                let n = self@.len() as int;
                let start = page_start(self@, page_token@);
                let len = page_len(page_size, start, n);
                &&& 0 <= start <= n
                &&& r.0@.len() == len
                &&& forall|i: int| 0 <= i < len ==> *r.0@[i] == self@[start + i].1
                &&& r.1@ == if page_size > 0 && len == page_size && start + page_size < n {
                        self@[start + len - 1].0
                    } else {
                        Seq::<char>::empty()
                    }
            }),
    {
        self.catalog.list_page(page_size, page_token)
    }

    /// Number of links.
    pub fn len(&self) -> (n: usize)
        ensures
            n == self@.len(),
    {
        self.catalog.len()
    }
}

} // verus!
