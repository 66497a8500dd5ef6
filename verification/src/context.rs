//! The match context: the name-to-value mapping a template is rendered
//! against after a successful match.
//!
//! It holds every named capture group that participated in the match,
//! plus four reserved names: the whole input line, the matched span, the
//! text before it, and the text after it.  Later entries override
//! earlier ones, as repeated insertion into a map would.

use vstd::prelude::*;
use crate::rx::CapturesData;
use crate::util::{chars_eq, copy_chars, extend_chars, key3};

verus! {

/// The spec values of a sequence of (name, value) pairs.
pub open spec fn pairs_view(s: Seq<(Vec<char>, Vec<char>)>) -> Seq<(Seq<char>, Seq<char>)> {
    Seq::new(s.len(), |i: int| (s[i].0@, s[i].1@))
}

/// The map the entries denote: each entry inserted in order, so a later
/// entry overrides an earlier one with the same name.
pub open spec fn map_of(entries: Seq<(Seq<char>, Seq<char>)>) -> Map<Seq<char>, Seq<char>>
    decreases entries.len(),
{
    if entries.len() == 0 {
        Map::empty()
    } else {
        map_of(entries.drop_last()).insert(entries.last().0, entries.last().1)
    }
}

/// A name is in the map exactly when some entry bears it.
pub proof fn lemma_map_of_key(entries: Seq<(Seq<char>, Seq<char>)>, k: Seq<char>)
    ensures
        map_of(entries).contains_key(k) <==> exists|i: int|
            0 <= i < entries.len() && entries[i].0 == k,
    decreases entries.len(),
{
    if entries.len() > 0 {
        lemma_map_of_key(entries.drop_last(), k);
        if entries.last().0 == k {
            assert(entries[entries.len() - 1].0 == k);
        } else {
            assert forall|i: int|
                0 <= i < entries.len() && entries[i].0 == k implies map_of(entries).contains_key(
                k,
            ) by {
                assert(entries.drop_last()[i] == entries[i]);
            }
        }
    }
}

/// When every entry bearing a name agrees on one value, the map holds
/// that value for the name.
pub proof fn lemma_map_of_uniform(entries: Seq<(Seq<char>, Seq<char>)>, k: Seq<char>, v: Seq<char>)
    requires
        forall|i: int| 0 <= i < entries.len() && (#[trigger] entries[i]).0 == k ==> entries[i].1
            == v,
    ensures
        map_of(entries).contains_key(k) ==> map_of(entries)[k] == v,
    decreases entries.len(),
{
    if entries.len() > 0 {
        assert(forall|i: int|
            0 <= i < entries.drop_last().len() && (#[trigger] entries.drop_last()[i]).0 == k
                ==> entries.drop_last()[i].1 == v) by {
            assert(forall|i: int|
                0 <= i < entries.len() - 1 ==> entries.drop_last()[i] == #[trigger] entries[i]);
        }
        lemma_map_of_uniform(entries.drop_last(), k, v);
        if entries.last().0 == k {
            assert(entries[entries.len() - 1].1 == v);
        }
    }
}

/// Entries that cover exactly the keys of `m`, each with `m`'s value,
/// denote `m` itself.
pub proof fn lemma_entries_denote(entries: Seq<(Seq<char>, Seq<char>)>, m: Map<Seq<char>, Seq<char>>)
    requires
        forall|i: int|
            0 <= i < entries.len() ==> m.contains_key((#[trigger] entries[i]).0) && m[entries[i].0]
                == entries[i].1,
        forall|k: Seq<char>| #[trigger]
            m.contains_key(k) ==> exists|i: int| 0 <= i < entries.len() && entries[i].0 == k,
    ensures
        map_of(entries) == m,
{
    let mo = map_of(entries);
    assert forall|k: Seq<char>| #[trigger] mo.contains_key(k) implies m.contains_key(k)
        && mo[k] == m[k] by {
        lemma_map_of_key(entries, k);
        let i = choose|i: int| 0 <= i < entries.len() && (#[trigger] entries[i]).0 == k;
        assert(m.contains_key(k));
        lemma_map_of_uniform(entries, k, m[k]);
    }
    assert forall|k: Seq<char>| #[trigger] m.contains_key(k) implies mo.contains_key(k) by {
        lemma_map_of_key(entries, k);
    }
    assert(mo =~= m);
}

/// The reserved placeholder key for the whole input line.
pub open spec fn key_whole() -> Seq<char> {
    seq!['P', '_', '@']
}

/// The reserved placeholder key for the matched span.
pub open spec fn key_matched() -> Seq<char> {
    seq!['P', '_', '%']
}

/// The reserved placeholder key for the text before the match.
pub open spec fn key_before() -> Seq<char> {
    seq!['P', '_', '^']
}

/// The reserved placeholder key for the text after the match.
pub open spec fn key_after() -> Seq<char> {
    seq!['P', '_', '$']
}

/// The full context a match denotes: the participating named groups,
/// then the four reserved names.
pub open spec fn spec_context(
    m: (Seq<char>, Seq<char>, Seq<char>, Map<Seq<char>, Seq<char>>),
) -> Map<Seq<char>, Seq<char>> {
    m.3.insert(key_whole(), m.0 + m.1 + m.2).insert(key_matched(), m.1).insert(
        key_before(),
        m.0,
    ).insert(key_after(), m.2)
}

/// The name-to-value mapping for one matched line.
pub struct MatchContext {
    pub entries: Vec<(Vec<char>, Vec<char>)>,
}

impl View for MatchContext {
    type V = Map<Seq<char>, Seq<char>>;

    open spec fn view(&self) -> Map<Seq<char>, Seq<char>> {
        map_of(pairs_view(self.entries@))
    }
}

impl MatchContext {
    /// The value bound to `key`, if any; a later binding wins.
    pub fn get<'a>(&'a self, key: &Vec<char>) -> (r: Option<&'a Vec<char>>)
        ensures
            match r {
                Some(v) => self@.contains_key(key@) && self@[key@] == v@,
                None => !self@.contains_key(key@),
            },
    {
        let ghost pv = pairs_view(self.entries@);
        assert(pv.len() == self.entries@.len());
        let mut i: usize = self.entries.len();
        while i > 0
            invariant
                i <= self.entries@.len(),
                pv == pairs_view(self.entries@),
                pv.len() == self.entries@.len(),
                forall|j: int| i <= j < pv.len() ==> (#[trigger] pv[j]).0 != key@,
            decreases i,
        {
            i = i - 1;
            if chars_eq(&self.entries[i].0, key) {
                proof {
                    lemma_map_of_suffix_silent(pv, key@, i + 1);
                    assert(pv.take(i + 1).drop_last() =~= pv.take(i as int));
                    assert(pv.take(i + 1).last() == pv[i as int]);
                }
                return Some(&self.entries[i].1);
            }
        }
        proof {
            lemma_map_of_suffix_silent(pv, key@, 0);
            assert(pv.take(0) =~= Seq::<(Seq<char>, Seq<char>)>::empty());
        }
        None
    }
}

/// Entries from `i` on that never bear `k` do not affect `k`'s binding.
pub proof fn lemma_map_of_suffix_silent(
    entries: Seq<(Seq<char>, Seq<char>)>,
    k: Seq<char>,
    i: int,
)
    requires
        0 <= i <= entries.len(),
        forall|j: int| i <= j < entries.len() ==> (#[trigger] entries[j]).0 != k,
    ensures
        map_of(entries).contains_key(k) <==> map_of(entries.take(i)).contains_key(k),
        map_of(entries).contains_key(k) ==> map_of(entries)[k] == map_of(entries.take(i))[k],
    decreases entries.len() - i,
{
    if i == entries.len() {
        assert(entries.take(i) =~= entries);
    } else {
        let e2 = entries.drop_last();
        assert(forall|j: int| i <= j < e2.len() ==> (#[trigger] e2[j]).0 != k) by {
            assert(forall|j: int| 0 <= j < e2.len() ==> e2[j] == #[trigger] entries[j]);
        }
        lemma_map_of_suffix_silent(e2, k, i);
        assert(e2.take(i) =~= entries.take(i));
        assert(entries.last().0 != k);
    }
}

/// Builds the context of one match: the named groups, then the four
/// reserved names bound to the spans of the match.
pub fn build_context(c: &CapturesData) -> (ctx: MatchContext)
    ensures
        ctx@ == map_of(pairs_view(c.names@)).insert(
            key_whole(),
            c.prefix@ + c.matched@ + c.suffix@,
        ).insert(key_matched(), c.matched@).insert(key_before(), c.prefix@).insert(
            key_after(),
            c.suffix@,
        ),
{
    let mut entries: Vec<(Vec<char>, Vec<char>)> = Vec::new();
    let mut i: usize = 0;
    while i < c.names.len()
        invariant
            i <= c.names@.len(),
            entries@.len() == i,
            pairs_view(entries@) =~= pairs_view(c.names@).take(i as int),
        decreases c.names@.len() - i,
    {
        let name = copy_chars(&c.names[i].0);
        let value = copy_chars(&c.names[i].1);
        entries.push((name, value));
        assert(pairs_view(entries@) =~= pairs_view(c.names@).take(i + 1 as int));
        i = i + 1;
    }
    assert(pairs_view(entries@) =~= pairs_view(c.names@));

    let mut whole = copy_chars(&c.prefix);
    extend_chars(&mut whole, &c.matched);
    extend_chars(&mut whole, &c.suffix);
    let ghost before_specials = pairs_view(entries@);

    entries.push((key3('P', '_', '@'), whole));
    entries.push((key3('P', '_', '%'), copy_chars(&c.matched)));
    entries.push((key3('P', '_', '^'), copy_chars(&c.prefix)));
    entries.push((key3('P', '_', '$'), copy_chars(&c.suffix)));

    let ctx = MatchContext { entries };
    proof {
        let pv = pairs_view(ctx.entries@);
        let m = before_specials.len() as int;
        assert(pv.len() == ctx.entries@.len());
        assert(pv.len() == m + 4);
        assert(pv.take(m) =~= before_specials);
        assert(pv[m] == (key_whole(), c.prefix@ + c.matched@ + c.suffix@));
        assert(pv[m + 1] == (key_matched(), c.matched@));
        assert(pv[m + 2] == (key_before(), c.prefix@));
        assert(pv[m + 3] == (key_after(), c.suffix@));
        assert(pv.take(m + 1).drop_last() =~= pv.take(m));
        assert(pv.take(m + 2).drop_last() =~= pv.take(m + 1));
        assert(pv.take(m + 3).drop_last() =~= pv.take(m + 2));
        assert(pv.take(m + 4) =~= pv);
        assert(pv.drop_last() =~= pv.take(m + 3));
        assert(pv.take(m + 1).last() == pv[m]);
        assert(pv.take(m + 2).last() == pv[m + 1]);
        assert(pv.take(m + 3).last() == pv[m + 2]);
        assert(pv.last() == pv[m + 3]);
        assert(map_of(pv.take(m + 1)) == map_of(pv.take(m)).insert(
            key_whole(),
            c.prefix@ + c.matched@ + c.suffix@,
        ));
        assert(map_of(pv.take(m + 2)) == map_of(pv.take(m + 1)).insert(key_matched(), c.matched@));
        assert(map_of(pv.take(m + 3)) == map_of(pv.take(m + 2)).insert(key_before(), c.prefix@));
        assert(map_of(pv) == map_of(pv.take(m + 3)).insert(key_after(), c.suffix@));
    }
    ctx
}

} // verus!
