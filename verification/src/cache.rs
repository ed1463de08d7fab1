//! Tokens that have been obtained, kept by the scopes that they were asked for.
use crate::credential;
use crate::flow::{ActionView, FlowAction, Step, StepView};
use crate::text::same_text;
use crate::token::{AccessToken, TokenView};
use vstd::prelude::*;

verus! {

broadcast use vstd::string::group_string_axioms;

struct CacheEntry {
    scopes: Vec<String>,
    token: AccessToken,
}

/// The texts of strings.
pub open spec fn texts(strings: Seq<String>) -> Seq<Seq<char>> {
    strings.map_values(|s: String| s@)
}

/// The token of the first entry for `scopes`.
spec fn find_in(entries: Seq<CacheEntry>, scopes: Seq<Seq<char>>) -> Option<TokenView>
    decreases entries.len(),
{
    if entries.len() == 0 {
        None
    } else if texts(entries[0].scopes@) == scopes {
        Some(entries[0].token@)
    } else {
        find_in(entries.drop_first(), scopes)
    }
}

/// Tokens by scopes.
pub struct TokenCache {
    entries: Vec<CacheEntry>,
}

/// A token, if it has not expired at `now`.
pub open spec fn fresh(token: Option<TokenView>, now: i64) -> Option<TokenView> {
    match token {
        Some(t) if t.expires_on > now => Some(t),
        _ => None,
    }
}

/// The token that a step ends with, if it ends with one.
pub open spec fn token_in(step: StepView) -> Option<TokenView> {
    match step.action {
        ActionView::Finish(t) => Some(t),
        _ => None,
    }
}

/// The token that an option holds, as a mathematical value.
pub open spec fn token_of(t: Option<AccessToken>) -> Option<TokenView> {
    match t {
        Some(t) => Some(t@),
        None => None,
    }
}

fn same_scopes(kept: &Vec<String>, scopes: &[&str]) -> (r: bool)
    ensures
        r == (texts(kept@) == credential::scope_texts(scopes)),
{
    if kept.len() != scopes.len() {
        assert(texts(kept@).len() != credential::scope_texts(scopes).len());
        return false;
    }
    let mut k: usize = 0;
    while k < kept.len()
        invariant
            k <= kept@.len(),
            kept@.len() == scopes@.len(),
            forall|j: int| 0 <= j < k ==> kept@[j]@ == (#[trigger] scopes@[j])@,
        decreases kept@.len() - k,
    {
        if !same_text(kept[k].as_str(), scopes[k]) {
            assert(texts(kept@)[k as int] != credential::scope_texts(scopes)[k as int]);
            return false;
        }
        k += 1;
    }
    assert(texts(kept@) =~= credential::scope_texts(scopes));
    true
}

fn kept_scopes(scopes: &[&str]) -> (r: Vec<String>)
    ensures
        texts(r@) == credential::scope_texts(scopes),
{
    let mut r: Vec<String> = Vec::new();
    let mut k: usize = 0;
    while k < scopes.len()
        invariant
            k <= scopes@.len(),
            r@.len() == k,
            forall|j: int| 0 <= j < k ==> r@[j]@ == (#[trigger] scopes@[j])@,
        decreases scopes@.len() - k,
    {
        r.push(scopes[k].to_owned());
        k += 1;
    }
    assert(texts(r@) =~= credential::scope_texts(scopes));
    r
}

/// Whether the entry at `i` is the first for `scopes`.
spec fn first_at(entries: Seq<CacheEntry>, scopes: Seq<Seq<char>>, i: int) -> bool {
    &&& 0 <= i <= entries.len()
    &&& forall|j: int| 0 <= j < i ==> texts((#[trigger] entries[j]).scopes@) != scopes
    &&& i < entries.len() ==> texts(entries[i].scopes@) == scopes
}

proof fn lemma_find_first(entries: Seq<CacheEntry>, scopes: Seq<Seq<char>>, i: int)
    requires
        first_at(entries, scopes, i),
    ensures
        find_in(entries, scopes) == (if i < entries.len() {
            Some(entries[i].token@)
        } else {
            None
        }),
    decreases i,
{
    if i > 0 {
        let rest = entries.drop_first();
        assert forall|j: int| 0 <= j < i - 1 implies texts((#[trigger] rest[j]).scopes@)
            != scopes by {
            assert(rest[j] == entries[j + 1]);
        }
        lemma_find_first(rest, scopes, i - 1);
    }
}

/// What is found of one key does not depend on an entry of another key, in whatever place.
proof fn lemma_find_other(a: Seq<CacheEntry>, b: Seq<CacheEntry>, i: int, other: Seq<Seq<char>>)
    requires
        0 <= i < b.len(),
        a.len() == b.len() || (a.len() == i && b.len() == i + 1),
        forall|j: int| 0 <= j < b.len() && j != i ==> j < a.len() && a[j] == b[j],
        i < a.len() ==> texts(a[i].scopes@) != other,
        texts(b[i].scopes@) != other,
    ensures
        find_in(a, other) == find_in(b, other),
    decreases b.len(),
{
    if i > 0 {
        assert(a[0] == b[0]);
        lemma_find_other(a.drop_first(), b.drop_first(), i - 1, other);
    } else if a.len() == b.len() {
        assert(a.drop_first() =~= b.drop_first());
    } else {
        assert(b.drop_first() =~= Seq::<CacheEntry>::empty());
    }
}

impl TokenCache {
    /// The token that is kept for `scopes`.
    pub closed spec fn lookup(self, scopes: Seq<Seq<char>>) -> Option<TokenView> {
        find_in(self.entries@, scopes)
    }

    /// Makes an empty cache.
    pub fn new() -> (r: TokenCache)
        ensures
            forall|scopes: Seq<Seq<char>>| r.lookup(scopes) is None,
    {
        TokenCache { entries: Vec::new() }
    }

    fn place_of(&self, scopes: &[&str]) -> (r: usize)
        ensures
            first_at(self.entries@, credential::scope_texts(scopes), r as int),
    {
        let mut k: usize = 0;
        while k < self.entries.len()
            invariant
                k <= self.entries@.len(),
                forall|j: int|
                    0 <= j < k ==> texts((#[trigger] self.entries@[j]).scopes@)
                        != credential::scope_texts(scopes),
            decreases self.entries@.len() - k,
        {
            if same_scopes(&self.entries[k].scopes, scopes) {
                return k;
            }
            k += 1;
        }
        k
    }

    /// The token that is kept for `scopes`, unless it has expired at `now`.
    pub fn get(&self, scopes: &[&str], now: i64) -> (r: Option<AccessToken>)
        ensures
            token_of(r) == fresh(self.lookup(credential::scope_texts(scopes)), now),
    {
        let k: usize = self.place_of(scopes);
        proof {
            lemma_find_first(self.entries@, credential::scope_texts(scopes), k as int);
        }
        if k < self.entries.len() && self.entries[k].token.expires_on > now {
            Some(self.entries[k].token.duplicate())
        } else {
            None
        }
    }

    /// Keeps a token for `scopes`, in place of one that may have been kept for them.
    pub fn insert(&mut self, scopes: &[&str], token: AccessToken)
        ensures
            final(self).lookup(credential::scope_texts(scopes)) == Some(token@),
            forall|other: Seq<Seq<char>>|
                other != credential::scope_texts(scopes) ==> final(self).lookup(other) == old(
                    self,
                ).lookup(other),
    {
        let k: usize = self.place_of(scopes);
        let ghost before = self.entries@;
        let ghost key = credential::scope_texts(scopes);
        let entry: CacheEntry = CacheEntry { scopes: kept_scopes(scopes), token };
        if k < self.entries.len() {
            self.entries.set(k, entry);
        } else {
            self.entries.push(entry);
        }
        proof {
            lemma_find_first(self.entries@, key, k as int);
            assert forall|other: Seq<Seq<char>>| other != key implies find_in(
                self.entries@,
                other,
            ) == find_in(before, other) by {
                lemma_find_other(before, self.entries@, k as int, other);
            }
        }
    }

    /// Keeps for `scopes` the token that `step` ends with; keeps all as it was where `step`
    /// does not end with one.
    pub fn keep(&mut self, scopes: &[&str], step: &Step)
        ensures
            step@.action matches ActionView::Finish(t) ==> final(self).lookup(
                credential::scope_texts(scopes),
            ) == Some(t),
            !(step@.action is Finish) ==> forall|any: Seq<Seq<char>>|
                #[trigger] final(self).lookup(any) == old(self).lookup(any),
            token_in(step@) is Some ==> final(self).lookup(credential::scope_texts(scopes))
                == token_in(step@),
            forall|other: Seq<Seq<char>>|
                other != credential::scope_texts(scopes) || token_in(step@) is None
                    ==> #[trigger] final(self).lookup(other) == old(self).lookup(other),
    {
        match &step.action {
            FlowAction::Finish(token) => self.insert(scopes, token.duplicate()),
            _ => {},
        }
    }
}

}
