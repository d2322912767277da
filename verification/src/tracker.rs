//! The stateful reducer that maintains the currently authorized set of
//! voting keys, including the legacy two-phase (pending/commit) flow.

use vstd::prelude::*;

use crate::addr::{addr_lt, lemma_addr_order_total, lemma_addr_order_trans, Address};
use crate::events::KeyAction;

verus! {

/// Strictly ascending by the address order: sorted and duplicate-free.
pub open spec fn sorted_strict(s: Seq<Address>) -> bool {
    forall|i: int, j: int| 0 <= i < j < s.len() ==> addr_lt(s[i], s[j])
}

/// The authorized voter set, kept as a strictly sorted vector so that
/// membership is canonical and iteration order is deterministic.
#[derive(Debug)]
pub struct VoterSet {
    items: Vec<Address>,
}

impl View for VoterSet {
    type V = Seq<Address>;

    closed spec fn view(&self) -> Seq<Address> {
        self.items@
    }
}

impl VoterSet {
    /// Well-formedness: the canonical strictly sorted representation.
    pub open spec fn inv(&self) -> bool {
        sorted_strict(self@)
    }

    pub fn new() -> (r: VoterSet)
        ensures
            r@ =~= Seq::<Address>::empty(),
            r.inv(),
    {
        VoterSet { items: Vec::new() }
    }

    pub fn len(&self) -> (n: usize)
        ensures
            n == self@.len(),
    {
        self.items.len()
    }

    /// The members in ascending order, for deterministic output.
    pub fn as_vec(&self) -> (v: &Vec<Address>)
        ensures
            v@ == self@,
    {
        &self.items
    }

    pub fn contains(&self, a: &Address) -> (r: bool)
        ensures
            r == self@.contains(*a),
    {
        let n: usize = self.items.len();
        let mut i: usize = 0;
        while i < n
            invariant
                i <= n,
                n == self@.len(),
                forall|k: int| 0 <= k < i ==> self@[k] != *a,
            decreases n - i,
        {
            if self.items[i].hi == a.hi && self.items[i].lo == a.lo {
                return true;
            }
            i = i + 1;
        }
        false
    }

    /// Inserts a key; a no-op if it is already a member.
    pub fn insert(&mut self, a: Address)
        requires
            old(self).inv(),
        ensures
            final(self).inv(),
            forall|x: Address| final(self)@.contains(x) <==> old(self)@.contains(x) || x == a,
            old(self)@.contains(a) ==> final(self)@ == old(self)@,
    {
        let n: usize = self.items.len();
        let mut pos: usize = 0;
        while pos < n && self.items[pos].less_than(&a)
            invariant
                pos <= n,
                n == self@.len(),
                self@ == old(self)@,
                forall|k: int| 0 <= k < pos ==> addr_lt(self@[k], a),
            decreases n - pos,
        {
            pos = pos + 1;
        }
        if pos < n {
            let c = &self.items[pos];
            if c.hi == a.hi && c.lo == a.lo {
                // Already present: representation unchanged.
                assert(self@.contains(a));
                return ;
            }
            proof {
                lemma_addr_order_total(self@[pos as int], a);
            }
        }
        // Here every earlier element is below `a`, and if `pos` is in
        // range the element there is strictly above `a`.
        assert(forall|k: int| 0 <= k < pos ==> addr_lt(old(self)@[k], a));
        assert(pos < n ==> addr_lt(a, old(self)@[pos as int]));
        assert(!old(self)@.contains(a)) by {
            if old(self)@.contains(a) {
                let j = choose|j: int| 0 <= j < old(self)@.len() && old(self)@[j] == a;
                if j < pos {
                } else if j > pos {
                    lemma_addr_order_trans(a, old(self)@[pos as int], old(self)@[j]);
                }
            }
        }
        self.items.insert(pos, a);
        proof {
            let s = self@;
            let o = old(self)@;
            assert(s.len() == o.len() + 1);
            assert forall|i: int, j: int| 0 <= i < j < s.len() implies addr_lt(s[i], s[j]) by {
                if j < pos {
                    // Both kept their places.
                } else if i < pos && j == pos {
                    assert(s[j] == a);
                } else if i == pos && j > pos {
                    assert(s[j] == o[j - 1]);
                    if j - 1 > pos {
                        lemma_addr_order_trans(a, o[pos as int], o[j - 1]);
                    }
                } else if i < pos && j > pos {
                    assert(s[j] == o[j - 1]);
                    if j - 1 > pos {
                        lemma_addr_order_trans(a, o[pos as int], o[j - 1]);
                    }
                    lemma_addr_order_trans(s[i], a, s[j]);
                } else {
                    // Both shifted right by one.
                    assert(s[i] == o[i - 1]);
                    assert(s[j] == o[j - 1]);
                }
            }
            assert forall|x: Address| s.contains(x) implies o.contains(x) || x == a by {
                let j = choose|j: int| 0 <= j < s.len() && s[j] == x;
                if j < pos {
                    assert(o[j] == x);
                } else if j > pos {
                    assert(o[j - 1] == x);
                }
            }
            assert forall|x: Address| o.contains(x) implies s.contains(x) by {
                let j = choose|j: int| 0 <= j < o.len() && o[j] == x;
                if j < pos {
                    assert(s[j] == x);
                } else {
                    assert(s[j + 1] == x);
                }
            }
            assert(s[pos as int] == a);
        }
    }

    /// Removes a key; a no-op if it is not a member.
    pub fn remove(&mut self, a: &Address)
        requires
            old(self).inv(),
        ensures
            final(self).inv(),
            forall|x: Address| final(self)@.contains(x) <==> old(self)@.contains(x) && x != *a,
            !old(self)@.contains(*a) ==> final(self)@ == old(self)@,
    {
        let n: usize = self.items.len();
        let mut pos: usize = 0;
        while pos < n
            invariant
                pos <= n,
                n == self@.len(),
                self@ == old(self)@,
                old(self).inv(),
                forall|k: int| 0 <= k < pos ==> self@[k] != *a,
            decreases n - pos,
        {
            let c = &self.items[pos];
            if c.hi == a.hi && c.lo == a.lo {
                self.items.remove(pos);
                proof {
                    let s = self@;
                    let o = old(self)@;
                    assert(s.len() == o.len() - 1);
                    assert(o[pos as int] == *a);
                    assert forall|i: int, j: int| 0 <= i < j < s.len() implies addr_lt(
                        s[i],
                        s[j],
                    ) by {
                        if j < pos {
                        } else if i < pos {
                            assert(s[j] == o[j + 1]);
                            assert(addr_lt(o[i], o[j + 1]));
                        } else {
                            assert(s[i] == o[i + 1] && s[j] == o[j + 1]);
                        }
                    }
                    assert forall|x: Address| s.contains(x) implies o.contains(x) && x != *a by {
                        let j = choose|j: int| 0 <= j < s.len() && s[j] == x;
                        if j < pos {
                            assert(o[j] == x);
                        } else {
                            assert(0 <= pos < j + 1 < o.len());
                            assert(o[j + 1] == x);
                            assert(addr_lt(o[pos as int], o[j + 1]));
                        }
                    }
                    assert forall|x: Address| o.contains(x) && x != *a implies s.contains(x) by {
                        let j = choose|j: int| 0 <= j < o.len() && o[j] == x;
                        if j < pos {
                            assert(s[j] == x);
                        } else if j > pos {
                            assert(s[j - 1] == x);
                        }
                    }
                }
                return ;
            }
            pos = pos + 1;
        }
        assert(!old(self)@.contains(*a));
    }

    /// The canonical set holding exactly the addresses of `v`.
    pub fn from_vec(v: &Vec<Address>) -> (r: VoterSet)
        ensures
            r.inv(),
            forall|x: Address| r@.contains(x) <==> v@.contains(x),
    {
        let n: usize = v.len();
        let mut r = VoterSet::new();
        let mut i: usize = 0;
        while i < n
            invariant
                i <= n,
                n == v@.len(),
                r.inv(),
                forall|x: Address| r@.contains(x) <==> v@.subrange(0, i as int).contains(x),
            decreases n - i,
        {
            let ghost pre = r@;
            r.insert(v[i]);
            proof {
                let sub1 = v@.subrange(0, i + 1);
                let sub0 = v@.subrange(0, i as int);
                assert(sub1.drop_last() =~= sub0);
                assert(sub1.last() == v@[i as int]);
                assert forall|x: Address| r@.contains(x) implies sub1.contains(x) by {
                    if pre.contains(x) {
                        let j = choose|j: int| 0 <= j < sub0.len() && sub0[j] == x;
                        assert(sub1[j] == x);
                    } else {
                        assert(sub1[i as int] == x);
                    }
                }
                assert forall|x: Address| sub1.contains(x) implies r@.contains(x) by {
                    let j = choose|j: int| 0 <= j < sub1.len() && sub1[j] == x;
                    if j < i {
                        assert(sub0[j] == x);
                    }
                }
            }
            i = i + 1;
        }
        proof {
            assert(v@.subrange(0, n as int) =~= v@);
        }
        r
    }
}

/// Extending a prefix by one element extends what it contains by
/// exactly that element.
pub proof fn lemma_subrange_extends<A>(s: Seq<A>, i: int)
    requires
        0 <= i < s.len(),
    ensures
        forall|x: A|
            s.subrange(0, i + 1).contains(x) <==> s.subrange(0, i).contains(x) || x == s[i],
{
    let sub1 = s.subrange(0, i + 1);
    let sub0 = s.subrange(0, i);
    assert forall|x: A| sub1.contains(x) implies sub0.contains(x) || x == s[i] by {
        let j = choose|j: int| 0 <= j < sub1.len() && sub1[j] == x;
        if j < i {
            assert(sub0[j] == x);
        }
    }
    assert forall|x: A| sub0.contains(x) || x == s[i] implies sub1.contains(x) by {
        if sub0.contains(x) {
            let j = choose|j: int| 0 <= j < sub0.len() && sub0[j] == x;
            assert(sub1[j] == x);
        } else {
            assert(sub1[i] == x);
        }
    }
}

/// The reducer that holds the authorized voter set and the one-slot
/// buffer used by the legacy two-phase (pending/commit) resolution flow.
pub struct VoterSetTracker {
    pub set: VoterSet,
    pub pending: Option<Vec<Address>>,
}

impl VoterSetTracker {
    /// The buffered candidate set awaiting a later resolution, if any.
    pub open spec fn pending_view(&self) -> Option<Seq<Address>> {
        match self.pending {
            Some(v) => Some(v@),
            None => None,
        }
    }

    pub open spec fn inv(&self) -> bool {
        self.set.inv()
    }

    pub fn new() -> (r: VoterSetTracker)
        ensures
            r.inv(),
            r.set@ =~= Seq::<Address>::empty(),
            r.pending_view() is None,
    {
        VoterSetTracker { set: VoterSet::new(), pending: None }
    }

    /// Applies an incremental key change: insert on `Add`, delete on
    /// `Remove`, and nothing at all on an unknown action.
    pub fn apply_key_change(&mut self, action: &KeyAction, key: Address)
        requires
            old(self).inv(),
        ensures
            final(self).inv(),
            final(self).pending_view() == old(self).pending_view(),
            *action is Add ==> forall|x: Address|
                final(self).set@.contains(x) <==> old(self).set@.contains(x) || x == key,
            *action is Remove ==> forall|x: Address|
                final(self).set@.contains(x) <==> old(self).set@.contains(x) && x != key,
            *action is Unknown ==> final(self).set@ == old(self).set@,
    {
        match action {
            KeyAction::Add => self.set.insert(key),
            KeyAction::Remove => self.set.remove(&key),
            KeyAction::Unknown => (),
        }
    }

    /// Replaces the voter set wholesale with the given members.
    pub fn apply_full_set_replace(&mut self, new_set: &Vec<Address>)
        ensures
            final(self).inv(),
            final(self).pending_view() == old(self).pending_view(),
            forall|x: Address| final(self).set@.contains(x) <==> new_set@.contains(x),
    {
        self.set = VoterSet::from_vec(new_set);
    }

    /// Buffers the just-received candidate set and hands back the one
    /// that was waiting, which the caller must resolve key by key
    /// through a read-only lookup before calling `commit_resolved`.
    pub fn begin_pending(&mut self, candidate: Vec<Address>) -> (prev: Option<Vec<Address>>)
        requires
            old(self).inv(),
        ensures
            final(self).inv(),
            final(self).set@ == old(self).set@,
            final(self).pending_view() == Some(candidate@),
            match prev {
                Some(p) => old(self).pending_view() == Some(p@),
                None => old(self).pending_view() is None,
            },
    {
        let prev = self.pending.take();
        self.pending = Some(candidate);
        prev
    }

    /// Installs the resolved addresses of a formerly pending candidate
    /// set as the new voter set; zero addresses (failed lookups) are
    /// dropped.
    pub fn commit_resolved(&mut self, resolved: &Vec<Address>)
        ensures
            final(self).inv(),
            final(self).pending_view() == old(self).pending_view(),
            forall|x: Address|
                final(self).set@.contains(x) <==> resolved@.contains(x) && x
                    != Address::zero_spec(),
    {
        let n: usize = resolved.len();
        let mut kept: Vec<Address> = Vec::new();
        let mut i: usize = 0;
        while i < n
            invariant
                i <= n,
                n == resolved@.len(),
                forall|x: Address|
                    kept@.contains(x) <==> resolved@.subrange(0, i as int).contains(x) && x
                        != Address::zero_spec(),
            decreases n - i,
        {
            let ghost pre = kept@;
            let c = resolved[i];
            if !c.is_zero() {
                kept.push(c);
            }
            proof {
                let sub1 = resolved@.subrange(0, i + 1);
                let sub0 = resolved@.subrange(0, i as int);
                assert(sub1.drop_last() =~= sub0);
                assert(sub1.last() == resolved@[i as int]);
                assert forall|x: Address|
                    kept@.contains(x) implies sub1.contains(x) && x != Address::zero_spec() by {
                    if pre.contains(x) {
                        let j = choose|j: int| 0 <= j < sub0.len() && sub0[j] == x;
                        assert(sub1[j] == x);
                    } else {
                        assert(kept@.last() == x);
                        assert(sub1[i as int] == x);
                    }
                }
                assert forall|x: Address|
                    sub1.contains(x) && x != Address::zero_spec() implies kept@.contains(x) by {
                    let j = choose|j: int| 0 <= j < sub1.len() && sub1[j] == x;
                    if j < i {
                        assert(sub0[j] == x);
                        assert(pre.contains(x));
                        let m = choose|m: int| 0 <= m < pre.len() && pre[m] == x;
                        assert(kept@[m] == x);
                    } else {
                        assert(x == c);
                        assert(kept@.last() == x);
                    }
                }
            }
            i = i + 1;
        }
        proof {
            assert(resolved@.subrange(0, n as int) =~= resolved@);
        }
        self.set = VoterSet::from_vec(&kept);
    }
}

/// Law: an incremental addition of a key followed by its incremental
/// removal restores the voter set to its prior state, provided the key
/// was not already a member (removing a pre-existing key would delete
/// it for good).
///
/// `before` is a voter set; `added` and `removed` are related to it
/// exactly as the tracker's key-change contract relates the set after
/// `Add` and then `Remove` of the same key.
pub proof fn lemma_key_change_round_trip(
    before: Seq<Address>,
    added: Seq<Address>,
    removed: Seq<Address>,
    key: Address,
)
    requires
        sorted_strict(before),
        sorted_strict(added),
        sorted_strict(removed),
        !before.contains(key),
        forall|x: Address| added.contains(x) <==> before.contains(x) || x == key,
        forall|x: Address| removed.contains(x) <==> added.contains(x) && x != key,
    ensures
        removed == before,
{
    assert(forall|x: Address| removed.contains(x) <==> before.contains(x));
    lemma_voter_set_canonical(removed, before);
}

/// Two well-formed voter sets with the same members are identical:
/// the strictly sorted representation is canonical.
pub proof fn lemma_voter_set_canonical(x: Seq<Address>, y: Seq<Address>)
    requires
        sorted_strict(x),
        sorted_strict(y),
        forall|a: Address| x.contains(a) <==> y.contains(a),
    ensures
        x =~= y,
    decreases x.len(),
{
    if x.len() == 0 {
        if y.len() > 0 {
            assert(y.contains(y[0]));
        }
    } else if y.len() == 0 {
        assert(x.contains(x[0]));
    } else {
        assert(x.contains(x[0]));
        assert(y.contains(y[0]));
        let i = choose|i: int| 0 <= i < x.len() && x[i] == y[0];
        let j = choose|j: int| 0 <= j < y.len() && y[j] == x[0];
        assert(x[0] == y[0]) by {
            if i > 0 {
                assert(addr_lt(x[0], x[i]));
            }
            if j > 0 {
                assert(addr_lt(y[0], y[j]));
            }
            lemma_addr_order_total(x[0], y[0]);
        }
        let xt = x.drop_first();
        let yt = y.drop_first();
        assert forall|a: Address| xt.contains(a) implies yt.contains(a) by {
            let k = choose|k: int| 0 <= k < xt.len() && xt[k] == a;
            assert(x[k + 1] == a);
            assert(addr_lt(x[0], a));
            assert(x.contains(a));
            let m = choose|m: int| 0 <= m < y.len() && y[m] == a;
            assert(m != 0);
            assert(yt[m - 1] == a);
        }
        assert forall|a: Address| yt.contains(a) implies xt.contains(a) by {
            let k = choose|k: int| 0 <= k < yt.len() && yt[k] == a;
            assert(y[k + 1] == a);
            assert(addr_lt(y[0], a));
            assert(y.contains(a));
            let m = choose|m: int| 0 <= m < x.len() && x[m] == a;
            assert(m != 0);
            assert(xt[m - 1] == a);
        }
        lemma_voter_set_canonical(xt, yt);
        assert(x =~= seq![x[0]] + xt);
        assert(y =~= seq![y[0]] + yt);
    }
}

} // verus!
