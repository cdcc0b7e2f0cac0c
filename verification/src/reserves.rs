//! Token reserves as reported by one source: a small map from token
//! identifier to amount, both kept as text.
use crate::text::text_views;
use vstd::prelude::*;

verus! {

/// One reported reserve: a token identifier and the amount held of it.
#[derive(Debug)]
pub struct ReserveEntry {
    pub token: String,
    pub amount: String,
}

/// The map that a list of entries stands for; a later entry replaces an
/// earlier one with the same token.
pub open spec fn entries_map(entries: Seq<ReserveEntry>) -> Map<Seq<char>, Seq<char>>
    decreases entries.len(),
{
    if entries.len() == 0 {
        Map::empty()
    } else {
        entries_map(entries.drop_last()).insert(entries.last().token@, entries.last().amount@)
    }
}

/// No two entries name the same token.
pub open spec fn distinct_tokens(entries: Seq<ReserveEntry>) -> bool {
    forall|i: int, j: int|
        0 <= i < j < entries.len() ==> (#[trigger] entries[i]).token@ != (
        #[trigger] entries[j]).token@
}

pub proof fn lemma_entries_map_dom(entries: Seq<ReserveEntry>)
    ensures
        entries_map(entries).dom().finite(),
        forall|k: Seq<char>| #[trigger]
            entries_map(entries).contains_key(k) <==> exists|i: int|
                0 <= i < entries.len() && (#[trigger] entries[i]).token@ == k,
    decreases entries.len(),
{
    if entries.len() > 0 {
        let front = entries.drop_last();
        lemma_entries_map_dom(front);
        assert forall|k: Seq<char>| #[trigger]
            entries_map(entries).contains_key(k) <==> exists|i: int|
                0 <= i < entries.len() && (#[trigger] entries[i]).token@ == k by {
            if entries_map(entries).contains_key(k) {
                if k == entries.last().token@ {
                    assert(entries[entries.len() - 1].token@ == k);
                } else {
                    assert(entries_map(front).contains_key(k));
                    let i = choose|i: int| 0 <= i < front.len() && (#[trigger] front[i]).token@ == k;
                    assert(entries[i].token@ == k);
                }
            }
            if exists|i: int| 0 <= i < entries.len() && (#[trigger] entries[i]).token@ == k {
                let i = choose|i: int| 0 <= i < entries.len() && (#[trigger] entries[i]).token@ == k;
                if i < entries.len() - 1 {
                    assert(front[i].token@ == k);
                }
            }
        }
    }
}

pub proof fn lemma_entries_map_value(entries: Seq<ReserveEntry>, i: int)
    requires
        distinct_tokens(entries),
        0 <= i < entries.len(),
    ensures
        entries_map(entries).contains_key(entries[i].token@),
        entries_map(entries)[entries[i].token@] == entries[i].amount@,
    decreases entries.len(),
{
    let front = entries.drop_last();
    if i < entries.len() - 1 {
        assert(distinct_tokens(front)) by {
            assert forall|a: int, b: int| 0 <= a < b < front.len() implies (#[trigger] front[a]).token@
                != (#[trigger] front[b]).token@ by {
                assert(entries[a].token@ != entries[b].token@);
            }
        }
        lemma_entries_map_value(front, i);
        assert(front[i] == entries[i]);
        assert(entries[i].token@ != entries[entries.len() - 1].token@);
    }
}

pub proof fn lemma_entries_map_len(entries: Seq<ReserveEntry>)
    requires
        distinct_tokens(entries),
    ensures
        entries_map(entries).dom().finite(),
        entries_map(entries).dom().len() == entries.len(),
    decreases entries.len(),
{
    lemma_entries_map_dom(entries);
    if entries.len() > 0 {
        let front = entries.drop_last();
        assert(distinct_tokens(front)) by {
            assert forall|a: int, b: int| 0 <= a < b < front.len() implies (#[trigger] front[a]).token@
                != (#[trigger] front[b]).token@ by {
                assert(entries[a].token@ != entries[b].token@);
            }
        }
        lemma_entries_map_len(front);
        lemma_entries_map_dom(front);
        let k = entries.last().token@;
        if entries_map(front).contains_key(k) {
            let i = choose|i: int| 0 <= i < front.len() && (#[trigger] front[i]).token@ == k;
            assert(entries[i].token@ == entries[entries.len() - 1].token@);
        }
        assert(entries_map(entries).dom() =~= entries_map(front).dom().insert(k));
    }
}

proof fn lemma_replace_entry(entries: Seq<ReserveEntry>, i: int, e: ReserveEntry)
    requires
        distinct_tokens(entries),
        0 <= i < entries.len(),
        entries[i].token@ == e.token@,
    ensures
        distinct_tokens(entries.update(i, e)),
        entries_map(entries.update(i, e)) == entries_map(entries).insert(e.token@, e.amount@),
    decreases entries.len(),
{
    let after = entries.update(i, e);
    assert(distinct_tokens(after)) by {
        assert forall|a: int, b: int| 0 <= a < b < after.len() implies (#[trigger] after[a]).token@
            != (#[trigger] after[b]).token@ by {
            assert(entries[a].token@ != entries[b].token@);
        }
    }
    let front = entries.drop_last();
    if i == entries.len() - 1 {
        assert(after.drop_last() == front);
        assert(entries_map(after) =~= entries_map(entries).insert(e.token@, e.amount@));
    } else {
        assert(distinct_tokens(front)) by {
            assert forall|a: int, b: int| 0 <= a < b < front.len() implies (#[trigger] front[a]).token@
                != (#[trigger] front[b]).token@ by {
                assert(entries[a].token@ != entries[b].token@);
            }
        }
        lemma_replace_entry(front, i, e);
        assert(after.drop_last() == front.update(i, e));
        assert(after.last() == entries.last());
        assert(entries[i].token@ != entries[entries.len() - 1].token@);
        assert(entries_map(after) =~= entries_map(entries).insert(e.token@, e.amount@));
    }
}

/// Whether a key names a token: token identifiers are exactly 43 characters
/// long. Placeholder keys such as `TokenA`, `TokenB` or `K`, and message tags
/// such as `Action`, are shorter and so never count.
pub open spec fn is_token_id(key: Seq<char>) -> bool {
    key.len() == 43
}

/// The keys of a listing that name a token, in the order of the listing.
pub open spec fn listed_tokens(entries: Seq<ReserveEntry>) -> Seq<Seq<char>>
    decreases entries.len(),
{
    if entries.len() == 0 {
        Seq::empty()
    } else {
        let before = listed_tokens(entries.drop_last());
        if is_token_id(entries.last().token@) {
            before.push(entries.last().token@)
        } else {
            before
        }
    }
}

/// The token identifiers among the keys of a map.
pub open spec fn token_keys(m: Map<Seq<char>, Seq<char>>) -> Set<Seq<char>> {
    m.dom().filter(|k: Seq<char>| is_token_id(k))
}

/// Two reports agree when they name the same tokens and give every token the
/// same amount, compared as text.
pub open spec fn tokens_agree(a: Map<Seq<char>, Seq<char>>, b: Map<Seq<char>, Seq<char>>) -> bool {
    &&& token_keys(a) == token_keys(b)
    &&& forall|k: Seq<char>| #[trigger] token_keys(a).contains(k) ==> a[k] == b[k]
}

/// Whether a key names a token.
pub fn names_token(key: &String) -> (r: bool)
    ensures
        r == is_token_id(key@),
{
    key.as_str().unicode_len() == 43
}

/// The reserves one source reports for a process, keyed by token identifier.
#[derive(Debug)]
pub struct ReserveMap {
    entries: Vec<ReserveEntry>,
}

impl View for ReserveMap {
    type V = Map<Seq<char>, Seq<char>>;

    closed spec fn view(&self) -> Map<Seq<char>, Seq<char>> {
        entries_map(self.entries@)
    }
}

impl Clone for ReserveEntry {
    fn clone(&self) -> (r: ReserveEntry)
        ensures
            r == *self,
    {
        ReserveEntry { token: self.token.clone(), amount: self.amount.clone() }
    }
}

impl ReserveMap {
    #[verifier::type_invariant]
    spec fn tokens_are_distinct(self) -> bool {
        distinct_tokens(self.entries@)
    }

    /// The entries in the order in which their tokens were first inserted.
    pub closed spec fn listing(self) -> Seq<ReserveEntry> {
        self.entries@
    }

    /// A map without entries.
    pub fn new() -> (r: ReserveMap)
        ensures
            r@ == Map::<Seq<char>, Seq<char>>::empty(),
            r.listing().len() == 0,
    {
        ReserveMap { entries: Vec::new() }
    }

    /// The number of tokens in the map.
    pub fn len(&self) -> (r: usize)
        ensures
            r == self.listing().len(),
            r == self@.dom().len(),
            self@.dom().finite(),
    {
        proof {
            use_type_invariant(self);
            lemma_entries_map_len(self.entries@);
        }
        self.entries.len()
    }

    /// The entry at a position of the listing.
    pub fn entry(&self, i: usize) -> (e: &ReserveEntry)
        requires
            i < self.listing().len(),
        ensures
            *e == self.listing()[i as int],
            self@.contains_key(e.token@),
            self@[e.token@] == e.amount@,
    {
        proof {
            use_type_invariant(self);
            lemma_entries_map_value(self.entries@, i as int);
        }
        &self.entries[i]
    }

    fn position(&self, token: &String) -> (r: Option<usize>)
        ensures
            match r {
                Some(i) => i < self.entries@.len() && self.entries@[i as int].token@ == token@,
                None => forall|i: int|
                    0 <= i < self.entries@.len() ==> (#[trigger] self.entries@[i]).token@
                        != token@,
            },
    {
        let mut i: usize = 0;
        while i < self.entries.len()
            invariant
                i <= self.entries@.len(),
                forall|j: int| 0 <= j < i ==> (#[trigger] self.entries@[j]).token@ != token@,
            decreases self.entries@.len() - i,
        {
            if self.entries[i].token == *token {
                return Some(i);
            }
            i += 1;
        }
        None
    }

    /// The amount held of a token, if the map names it.
    pub fn get(&self, token: &String) -> (r: Option<&String>)
        ensures
            match r {
                Some(amount) => self@.contains_key(token@) && amount@ == self@[token@],
                None => !self@.contains_key(token@),
            },
    {
        proof {
            use_type_invariant(self);
            lemma_entries_map_dom(self.entries@);
        }
        match self.position(token) {
            Some(i) => {
                proof {
                    lemma_entries_map_value(self.entries@, i as int);
                }
                Some(&self.entries[i].amount)
            },
            None => None,
        }
    }

    /// Whether the map names a token.
    pub fn contains_key(&self, token: &String) -> (r: bool)
        ensures
            r == self@.contains_key(token@),
    {
        self.get(token).is_some()
    }

    /// Sets the amount of a token, replacing the amount it had.
    pub fn insert(&mut self, token: String, amount: String)
        ensures
            final(self)@ == old(self)@.insert(token@, amount@),
    {
        proof {
            use_type_invariant(&*self);
            lemma_entries_map_dom(self.entries@);
        }
        let found = self.position(&token);
        let mut entries: Vec<ReserveEntry> = Vec::new();
        core::mem::swap(&mut self.entries, &mut entries);
        let ghost before = entries@;
        match found {
            Some(i) => {
                entries[i] = ReserveEntry { token, amount };
                proof {
                    lemma_replace_entry(before, i as int, entries@[i as int]);
                }
            },
            None => {
                entries.push(ReserveEntry { token, amount });
                proof {
                    assert(entries@.drop_last() == before);
                }
            },
        }
        self.entries = entries;
    }

    /// The map that holds the given entries, a later entry replacing an
    /// earlier one with the same token.
    pub fn from_entries(entries: Vec<ReserveEntry>) -> (r: ReserveMap)
        ensures
            r@ == entries_map(entries@),
    {
        let mut map = ReserveMap::new();
        let mut i: usize = 0;
        while i < entries.len()
            invariant
                i <= entries@.len(),
                map@ == entries_map(entries@.take(i as int)),
            decreases entries@.len() - i,
        {
            let e = entries[i].clone();
            proof {
                assert(entries@.take(i + 1).drop_last() == entries@.take(i as int));
            }
            map.insert(e.token, e.amount);
            i += 1;
        }
        proof {
            assert(entries@.take(entries@.len() as int) == entries@);
        }
        map
    }

    /// A copy of the entries, in listing order.
    pub fn to_entries(&self) -> (r: Vec<ReserveEntry>)
        ensures
            r@ == self.listing(),
    {
        let mut out: Vec<ReserveEntry> = Vec::new();
        let mut i: usize = 0;
        while i < self.entries.len()
            invariant
                i <= self.entries@.len(),
                out@ == self.entries@.take(i as int),
            decreases self.entries@.len() - i,
        {
            out.push(self.entries[i].clone());
            proof {
                assert(self.entries@.take(i + 1) == self.entries@.take(i as int).push(
                    self.entries@[i as int],
                ));
            }
            i += 1;
        }
        proof {
            assert(self.entries@.take(self.entries@.len() as int) == self.entries@);
        }
        out
    }

    /// Copies of the keys that name a token, each once, in listing order.
    pub fn token_ids(&self) -> (r: Vec<String>)
        ensures
            text_views(r@) == listed_tokens(self.listing()),
            text_views(r@).no_duplicates(),
            forall|k: Seq<char>| #[trigger]
                text_views(r@).contains(k) <==> token_keys(self@).contains(k),
    {
        proof {
            use_type_invariant(self);
            lemma_entries_map_dom(self.entries@);
        }
        let mut out: Vec<String> = Vec::new();
        let mut at: Ghost<Seq<int>> = Ghost(Seq::empty());
        let mut i: usize = 0;
        proof {
            assert(self.entries@.take(0) =~= Seq::empty());
            assert(text_views(out@) =~= listed_tokens(self.entries@.take(0)));
        }
        while i < self.entries.len()
            invariant
                i <= self.entries@.len(),
                distinct_tokens(self.entries@),
                text_views(out@) == listed_tokens(self.entries@.take(i as int)),
                at@.len() == out@.len(),
                forall|a: int| 0 <= a < at@.len() ==> 0 <= #[trigger] at@[a] < i,
                forall|a: int, b: int| 0 <= a < b < at@.len() ==> at@[a] < at@[b],
                forall|a: int|
                    0 <= a < out@.len() ==> (#[trigger] out@[a])@ == self.entries@[at@[a]].token@
                        && is_token_id(out@[a]@),
                forall|j: int|
                    0 <= j < i && is_token_id((#[trigger] self.entries@[j]).token@)
                        ==> exists|a: int| 0 <= a < at@.len() && #[trigger] at@[a] == j,
            decreases self.entries@.len() - i,
        {
            proof {
                assert(self.entries@.take(i + 1).drop_last() == self.entries@.take(i as int));
                assert(self.entries@.take(i + 1).last() == self.entries@[i as int]);
            }
            if names_token(&self.entries[i].token) {
                let ghost before = at@;
                let ghost sofar = out@;
                out.push(self.entries[i].token.clone());
                proof {
                    assert(text_views(out@) =~= text_views(sofar).push(
                        self.entries@[i as int].token@,
                    ));
                    at@ = before.push(i as int);
                    assert forall|j: int|
                        0 <= j < i + 1 && is_token_id(
                            (#[trigger] self.entries@[j]).token@,
                        ) implies exists|a: int| 0 <= a < at@.len() && #[trigger] at@[a] == j by {
                        if j < i {
                            let a = choose|a: int| 0 <= a < before.len() && #[trigger] before[a] == j;
                            assert(at@[a] == j);
                        } else {
                            assert(at@[before.len() as int] == j);
                        }
                    }
                }
            }
            i += 1;
        }
        proof {
            assert(self.entries@.take(self.entries@.len() as int) == self.entries@);
            let views = text_views(out@);
            assert forall|a: int, b: int| 0 <= a < views.len() && 0 <= b < views.len() && a
                != b implies views[a] != views[b] by {
                if a < b {
                    assert(at@[a] < at@[b]);
                    assert(self.entries@[at@[a]].token@ != self.entries@[at@[b]].token@);
                } else {
                    assert(at@[b] < at@[a]);
                    assert(self.entries@[at@[b]].token@ != self.entries@[at@[a]].token@);
                }
            }
            assert forall|k: Seq<char>| #[trigger] views.contains(k) <==> token_keys(
                self@,
            ).contains(k) by {
                if views.contains(k) {
                    let a = choose|a: int| 0 <= a < views.len() && views[a] == k;
                    assert(self.entries@[at@[a]].token@ == k);
                }
                if token_keys(self@).contains(k) {
                    let j = choose|j: int|
                        0 <= j < self.entries@.len() && (#[trigger] self.entries@[j]).token@ == k;
                    let a = choose|a: int| 0 <= a < at@.len() && #[trigger] at@[a] == j;
                    assert(views[a] == k);
                }
            }
        }
        out
    }

    /// Whether every token of `self` is a token of `other` with the same
    /// amount.
    fn tokens_held_by(&self, other: &ReserveMap) -> (r: bool)
        ensures
            r == forall|k: Seq<char>| #[trigger]
                token_keys(self@).contains(k) ==> token_keys(other@).contains(k) && self@[k]
                    == other@[k],
    {
        proof {
            use_type_invariant(self);
            lemma_entries_map_dom(self.entries@);
        }
        let mut i: usize = 0;
        while i < self.entries.len()
            invariant
                i <= self.entries@.len(),
                distinct_tokens(self.entries@),
                forall|j: int|
                    0 <= j < i && is_token_id((#[trigger] self.entries@[j]).token@)
                        ==> other@.contains_key(self.entries@[j].token@) && other@[self.entries@[j].token@]
                        == self.entries@[j].amount@,
            decreases self.entries@.len() - i,
        {
            let e = &self.entries[i];
            if names_token(&e.token) {
                proof {
                    lemma_entries_map_value(self.entries@, i as int);
                }
                match other.get(&e.token) {
                    Some(amount) => {
                        if *amount != e.amount {
                            assert(token_keys(self@).contains(e.token@));
                            return false;
                        }
                    },
                    None => {
                        assert(token_keys(self@).contains(e.token@));
                        return false;
                    },
                }
            }
            i += 1;
        }
        proof {
            assert forall|k: Seq<char>| #[trigger] token_keys(self@).contains(k) implies token_keys(
                other@,
            ).contains(k) && self@[k] == other@[k] by {
                let j = choose|j: int|
                    0 <= j < self.entries@.len() && (#[trigger] self.entries@[j]).token@ == k;
                lemma_entries_map_value(self.entries@, j);
            }
        }
        true
    }

    /// Whether the two reports agree on every token.
    pub fn agrees_with(&self, other: &ReserveMap) -> (r: bool)
        ensures
            r == tokens_agree(self@, other@),
    {
        let forth = self.tokens_held_by(other);
        let back = other.tokens_held_by(self);
        proof {
            if forth && back {
                assert(token_keys(self@) =~= token_keys(other@));
            }
        }
        forth && back
    }
}

impl Clone for ReserveMap {
    fn clone(&self) -> (r: ReserveMap)
        ensures
            r@ == self@,
            r.listing() == self.listing(),
    {
        proof {
            use_type_invariant(self);
        }
        let entries = self.to_entries();
        ReserveMap { entries }
    }
}

} // verus!
