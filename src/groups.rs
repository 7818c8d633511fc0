//! Trust-line groups and the commit-indexed group sets of cards and streams.
use vstd::prelude::*;

use crate::codec::{enc_str, enc_tag, enc_u64, push_str, push_tag, push_u64};
use crate::crypto::{commit, commit_of, PublicKey};

verus! {

/// The kind of a trust-line group.
#[allow(non_camel_case_types)]
#[derive(Debug, Clone, Copy, PartialEq, Eq, Structural)]
pub enum TLType {
    MASTER,
    SLAVE,
}

/// A trust-line group: a kind and the commitment of the group's key.
#[derive(Debug)]
pub struct TLGroup {
    pub typ: TLType,
    pub commit: String,
}

impl Clone for TLGroup {
    fn clone(&self) -> (r: Self)
        ensures
            r == *self,
    {
        TLGroup { typ: self.typ, commit: self.commit.clone() }
    }
}

impl TLGroup {
    /// A group of the given kind for `key`.
    pub fn new(typ: TLType, key: &PublicKey) -> (r: Self)
        ensures
            r.typ == typ,
            r.commit@ == commit_of(key@),
    {
        TLGroup { typ, commit: commit(key) }
    }
}

/// The variant index of a group kind.
pub open spec fn tl_tag(t: TLType) -> u32 {
    match t {
        TLType::MASTER => 0,
        TLType::SLAVE => 1,
    }
}

/// The groups of a sequence indexed by commit; a later group replaces an
/// earlier one with the same commit.
pub open spec fn group_map(gs: Seq<TLGroup>) -> Map<Seq<char>, TLGroup>
    decreases gs.len(),
{
    if gs.len() == 0 {
        Map::empty()
    } else {
        group_map(gs.drop_last()).insert(gs.last().commit@, gs.last())
    }
}

/// No two groups share a commit.
pub open spec fn unique_commits(gs: Seq<TLGroup>) -> bool {
    forall|i: int, j: int|
        0 <= i < gs.len() && 0 <= j < gs.len() && i != j ==> #[trigger] gs[i].commit@
            != #[trigger] gs[j].commit@
}

/// One entry of an encoded group set: the commit, then the group itself.
pub open spec fn enc_group(g: TLGroup) -> Seq<u8> {
    enc_str(g.commit@) + enc_tag(tl_tag(g.typ)) + enc_str(g.commit@)
}

/// The entries of an encoded group set, in order.
pub open spec fn enc_group_entries(gs: Seq<TLGroup>) -> Seq<u8>
    decreases gs.len(),
{
    if gs.len() == 0 {
        Seq::empty()
    } else {
        enc_group_entries(gs.drop_last()) + enc_group(gs.last())
    }
}

/// An encoded group set: the number of groups, then each entry.
pub open spec fn enc_groups(gs: Seq<TLGroup>) -> Seq<u8> {
    enc_u64(gs.len() as u64) + enc_group_entries(gs)
}

proof fn lemma_group_map_found(gs: Seq<TLGroup>, c: Seq<char>, j: int)
    requires
        0 <= j < gs.len(),
        gs[j].commit@ == c,
        forall|k: int| j < k < gs.len() ==> #[trigger] gs[k].commit@ != c,
    ensures
        group_map(gs).contains_key(c),
        group_map(gs)[c] == gs[j],
    decreases gs.len(),
{
    if j < gs.len() - 1 {
        let p = gs.drop_last();
        assert forall|k: int| j < k < p.len() implies #[trigger] p[k].commit@ != c by {
            assert(gs[k].commit@ != c);
        }
        lemma_group_map_found(p, c, j);
        assert(gs.last().commit@ != c);
    }
}

proof fn lemma_group_map_absent(gs: Seq<TLGroup>, c: Seq<char>)
    requires
        forall|k: int| 0 <= k < gs.len() ==> #[trigger] gs[k].commit@ != c,
    ensures
        !group_map(gs).contains_key(c),
    decreases gs.len(),
{
    if gs.len() > 0 {
        let p = gs.drop_last();
        assert forall|k: int| 0 <= k < p.len() implies #[trigger] p[k].commit@ != c by {
            assert(gs[k].commit@ != c);
        }
        lemma_group_map_absent(p, c);
        assert(gs.last().commit@ != c);
    }
}

proof fn lemma_group_map_update(gs: Seq<TLGroup>, j: int, g: TLGroup)
    requires
        unique_commits(gs),
        0 <= j < gs.len(),
        gs[j].commit@ == g.commit@,
    ensures
        group_map(gs.update(j, g)) =~= group_map(gs).insert(g.commit@, g),
    decreases gs.len(),
{
    let u = gs.update(j, g);
    if j == gs.len() - 1 {
        assert(u.drop_last() =~= gs.drop_last());
    } else {
        let p = gs.drop_last();
        assert(u.drop_last() =~= p.update(j, g));
        assert(gs.last().commit@ != g.commit@) by {
            assert(gs[gs.len() - 1].commit@ != gs[j].commit@);
        }
        lemma_group_map_update(p, j, g);
    }
}

/// The index of the group that `gs` holds for commit `c`, if any.
pub fn find_group(gs: &Vec<TLGroup>, c: &String) -> (r: Option<usize>)
    ensures
        match r {
            Some(j) => j < gs@.len() && gs@[j as int].commit@ == c@ && group_map(gs@).contains_key(
                c@,
            ) && group_map(gs@)[c@] == gs@[j as int],
            None => !group_map(gs@).contains_key(c@),
        },
{
    let mut i: usize = gs.len();
    while i > 0
        invariant
            i <= gs@.len(),
            forall|k: int| i <= k < gs@.len() ==> #[trigger] gs@[k].commit@ != c@,
        decreases i,
    {
        i = i - 1;
        if gs[i].commit == *c {
            proof {
                lemma_group_map_found(gs@, c@, i as int);
            }
            return Some(i);
        }
    }
    proof {
        lemma_group_map_absent(gs@, c@);
    }
    None
}

/// Whether `gs` holds a group for commit `c`.
pub fn has_group(gs: &Vec<TLGroup>, c: &String) -> (r: bool)
    ensures
        r == group_map(gs@).contains_key(c@),
{
    match find_group(gs, c) {
        Some(_) => true,
        None => false,
    }
}

/// Indexes groups by commit: one group per commit, the last one given for it.
pub fn index_groups(groups: &[TLGroup]) -> (r: Vec<TLGroup>)
    ensures
        unique_commits(r@),
        group_map(r@) == group_map(groups@),
{
    let mut out: Vec<TLGroup> = Vec::new();
    let mut i: usize = 0;
    while i < groups.len()
        invariant
            i <= groups@.len(),
            unique_commits(out@),
            group_map(out@) == group_map(groups@.subrange(0, i as int)),
        decreases groups.len() - i,
    {
        let g = groups[i].clone();
        let ghost prefix = groups@.subrange(0, i as int);
        proof {
            assert(groups@.subrange(0, i + 1).drop_last() =~= prefix);
        }
        match find_group(&out, &g.commit) {
            Some(j) => {
                proof {
                    lemma_group_map_update(out@, j as int, g);
                }
                out.set(j, g);
            },
            None => {
                proof {
                    assert forall|k: int| 0 <= k < out@.len() implies #[trigger] out@[k].commit@
                        != g.commit@ by {
                        if out@[k].commit@ == g.commit@ {
                            lemma_group_map_found_any(out@, g.commit@, k);
                        }
                    }
                    assert(out@.push(g).drop_last() =~= out@);
                }
                out.push(g);
            },
        }
        i = i + 1;
    }
    proof {
        assert(groups@.subrange(0, groups@.len() as int) =~= groups@);
    }
    out
}

proof fn lemma_group_map_found_any(gs: Seq<TLGroup>, c: Seq<char>, j: int)
    requires
        0 <= j < gs.len(),
        gs[j].commit@ == c,
    ensures
        group_map(gs).contains_key(c),
    decreases gs.len(),
{
    if j < gs.len() - 1 {
        lemma_group_map_found_any(gs.drop_last(), c, j);
    }
}

/// Appends the encoding of a group set.
pub fn push_groups(out: &mut Vec<u8>, gs: &Vec<TLGroup>)
    ensures
        final(out)@ == old(out)@ + enc_groups(gs@),
{
    push_u64(out, gs.len() as u64);
    let ghost start = out@;
    let mut i: usize = 0;
    while i < gs.len()
        invariant
            i <= gs@.len(),
            out@ == start + enc_group_entries(gs@.subrange(0, i as int)),
        decreases gs.len() - i,
    {
        let g = &gs[i];
        push_str(out, g.commit.as_str());
        let t: u32 = match g.typ {
            TLType::MASTER => 0,
            TLType::SLAVE => 1,
        };
        push_tag(out, t);
        push_str(out, g.commit.as_str());
        proof {
            let p = gs@.subrange(0, i + 1);
            assert(p.drop_last() =~= gs@.subrange(0, i as int));
            assert(out@ =~= start + enc_group_entries(p));
        }
        i = i + 1;
    }
    proof {
        assert(gs@.subrange(0, gs@.len() as int) =~= gs@);
    }
}

} // verus!
