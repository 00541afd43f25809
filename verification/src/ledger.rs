//! Attendance ledger: members, workshops, and "taken" records, with the
//! store's uniqueness rules stated as an invariant and every operation
//! specified as a transition on the ledger's mathematical view.

use vstd::prelude::*;

verus! {

/// A member row: the membership number and a staff flag.
#[derive(PartialEq, Eq, Structural, Clone, Copy, Debug)]
pub struct Member {
    pub gnum: u32,
    pub is_staff: bool,
}

/// A workshop row: an opaque unique id (UUID-shaped text) and a name.
#[derive(Debug)]
pub struct Workshop {
    pub id: String,
    pub name: String,
}

/// One completion event: a member has taken a workshop once.
#[derive(Debug)]
pub struct Taken {
    pub id: String,
    pub member: u32,
    pub workshop: String,
}

/// Why an attendance operation failed.
#[derive(PartialEq, Eq, Structural, Clone, Copy, Debug)]
pub enum TakeWorkshopError {
    /// The referenced member or workshop (or the record to reverse) is absent.
    NotFound,
    /// The member already has a record for this workshop.
    AlreadyTook,
    /// Any other storage fault; here, a generated record id that collides.
    DBError,
}

/// The payload for creating a workshop: its display name.
pub struct CreateWorkshopForm {
    pub name: String,
}

/// Mathematical view of a workshop row.
#[verifier::ext_equal]
pub struct WorkshopView {
    pub id: Seq<char>,
    pub name: Seq<char>,
}

/// Mathematical view of a completion record.
#[verifier::ext_equal]
pub struct TakenView {
    pub id: Seq<char>,
    pub member: u32,
    pub workshop: Seq<char>,
}

impl View for Workshop {
    type V = WorkshopView;

    open spec fn view(&self) -> WorkshopView {
        WorkshopView { id: self.id@, name: self.name@ }
    }
}

impl View for Taken {
    type V = TakenView;

    open spec fn view(&self) -> TakenView {
        TakenView { id: self.id@, member: self.member, workshop: self.workshop@ }
    }
}

impl Clone for Workshop {
    fn clone(&self) -> (r: Self)
        ensures
            r@ == self@,
    {
        Workshop { id: self.id.clone(), name: self.name.clone() }
    }
}

impl Clone for Taken {
    fn clone(&self) -> (r: Self)
        ensures
            r@ == self@,
    {
        Taken { id: self.id.clone(), member: self.member, workshop: self.workshop.clone() }
    }
}

/// Mathematical view of the whole store.
#[verifier::ext_equal]
pub struct LedgerView {
    pub members: Seq<Member>,
    pub workshops: Seq<WorkshopView>,
    pub taken: Seq<TakenView>,
}

/// The store of the check-in service.
pub struct Ledger {
    members: Vec<Member>,
    workshops: Vec<Workshop>,
    taken: Vec<Taken>,
}

impl View for Ledger {
    type V = LedgerView;

    closed spec fn view(&self) -> LedgerView {
        LedgerView {
            members: self.members@,
            workshops: self.workshops@.map_values(|w: Workshop| w@),
            taken: self.taken@.map_values(|t: Taken| t@),
        }
    }
}

/// Whether some member row carries this membership number.
pub open spec fn has_member(l: LedgerView, gnum: u32) -> bool {
    exists|i: int| 0 <= i < l.members.len() && l.members[i].gnum == gnum
}

/// Whether some workshop row carries this id.
pub open spec fn has_workshop(l: LedgerView, wid: Seq<char>) -> bool {
    exists|i: int| 0 <= i < l.workshops.len() && l.workshops[i].id == wid
}

/// Whether some completion record already pairs this member and workshop.
pub open spec fn pair_taken(l: LedgerView, gnum: u32, wid: Seq<char>) -> bool {
    exists|i: int|
        0 <= i < l.taken.len() && l.taken[i].member == gnum && l.taken[i].workshop == wid
}

/// Whether some completion record carries this record id.
pub open spec fn taken_id_used(l: LedgerView, id: Seq<char>) -> bool {
    exists|i: int| 0 <= i < l.taken.len() && l.taken[i].id == id
}

impl LedgerView {
    /// The store's uniqueness rules: membership numbers, workshop ids and
    /// record ids are each unique, and no `(member, workshop)` pair is
    /// recorded twice.
    pub open spec fn wf(self) -> bool {
        &&& forall|i: int, j: int|
            0 <= i < j < self.members.len() ==> self.members[i].gnum != self.members[j].gnum
        &&& forall|i: int, j: int|
            0 <= i < j < self.workshops.len() ==> self.workshops[i].id != self.workshops[j].id
        &&& forall|i: int, j: int|
            0 <= i < j < self.taken.len() ==> self.taken[i].id != self.taken[j].id
        &&& forall|i: int, j: int|
            0 <= i < j < self.taken.len() ==> !(self.taken[i].member == self.taken[j].member
                && self.taken[i].workshop == self.taken[j].workshop)
    }
}

/// Recording a completion: both rows must exist, the pair must be new and
/// the generated record id unused; then the record is appended.
pub open spec fn spec_record(l: LedgerView, gnum: u32, wid: Seq<char>, id: Seq<char>) -> (
    LedgerView,
    Result<TakenView, TakeWorkshopError>,
) {
    if !has_member(l, gnum) || !has_workshop(l, wid) {
        (l, Err(TakeWorkshopError::NotFound))
    } else if pair_taken(l, gnum, wid) {
        (l, Err(TakeWorkshopError::AlreadyTook))
    } else if taken_id_used(l, id) {
        (l, Err(TakeWorkshopError::DBError))
    } else {
        let t = TakenView { id: id, member: gnum, workshop: wid };
        (LedgerView { taken: l.taken.push(t), ..l }, Ok(t))
    }
}

/// The position of the one record pairing this member and workshop.
/// Meaningful only when `pair_taken` holds and the ledger is well formed.
pub open spec fn taken_pair_at(l: LedgerView, gnum: u32, wid: Seq<char>) -> int {
    choose|i: int|
        0 <= i < l.taken.len() && l.taken[i].member == gnum && l.taken[i].workshop == wid
}

/// Reversing a completion: both rows and the pair's record must exist;
/// then that record is removed and returned.
pub open spec fn spec_reverse(l: LedgerView, gnum: u32, wid: Seq<char>) -> (
    LedgerView,
    Result<TakenView, TakeWorkshopError>,
) {
    if !has_member(l, gnum) || !has_workshop(l, wid) {
        (l, Err(TakeWorkshopError::NotFound))
    } else if !pair_taken(l, gnum, wid) {
        (l, Err(TakeWorkshopError::NotFound))
    } else {
        let i = taken_pair_at(l, gnum, wid);
        (LedgerView { taken: l.taken.remove(i), ..l }, Ok(l.taken[i]))
    }
}

/// The workshop row carrying this id. Meaningful only when `has_workshop`
/// holds and the ledger is well formed.
pub open spec fn workshop_at(l: LedgerView, wid: Seq<char>) -> WorkshopView {
    l.workshops[choose|i: int| 0 <= i < l.workshops.len() && l.workshops[i].id == wid]
}

/// A member's history over a prefix of the records: each record of theirs
/// joined with its workshop, in record order, records whose workshop row
/// is gone silently skipped.
pub open spec fn spec_attendance_of(l: LedgerView, taken: Seq<TakenView>, gnum: u32) -> Seq<
    (TakenView, WorkshopView),
>
    decreases taken.len(),
{
    if taken.len() == 0 {
        Seq::empty()
    } else {
        let rest = spec_attendance_of(l, taken.drop_last(), gnum);
        let t = taken.last();
        if t.member == gnum && has_workshop(l, t.workshop) {
            rest.push((t, workshop_at(l, t.workshop)))
        } else {
            rest
        }
    }
}

/// A member's full history: their records joined with workshop rows.
pub open spec fn spec_attendance(l: LedgerView, gnum: u32) -> Seq<(TakenView, WorkshopView)> {
    spec_attendance_of(l, l.taken, gnum)
}

/// Creating a workshop with a given id: refused only if the id is already
/// in use; otherwise the row is appended.
pub open spec fn spec_create_workshop(l: LedgerView, name: Seq<char>, id: Seq<char>) -> (
    LedgerView,
    bool,
) {
    if has_workshop(l, id) {
        (l, false)
    } else {
        (LedgerView { workshops: l.workshops.push(WorkshopView { id, name }), ..l }, true)
    }
}

/// Deleting a workshop by id: the row goes away if present; records that
/// reference it are deliberately left alone (shallow delete).
pub open spec fn spec_delete_workshop(l: LedgerView, wid: Seq<char>) -> LedgerView {
    if has_workshop(l, wid) {
        LedgerView {
            workshops: l.workshops.remove(
                choose|i: int| 0 <= i < l.workshops.len() && l.workshops[i].id == wid,
            ),
            ..l
        }
    } else {
        l
    }
}

/// Membership upsert: insert the row if absent, change nothing if present.
pub open spec fn spec_upsert(l: LedgerView, gnum: u32) -> LedgerView {
    if has_member(l, gnum) {
        l
    } else {
        LedgerView { members: l.members.push(Member { gnum, is_staff: false }), ..l }
    }
}

impl Ledger {
    /// An empty store.
    pub fn new() -> (l: Ledger)
        ensures
            l@.members == Seq::<Member>::empty(),
            l@.workshops == Seq::<WorkshopView>::empty(),
            l@.taken == Seq::<TakenView>::empty(),
            l@.wf(),
    {
        let l = Ledger { members: Vec::new(), workshops: Vec::new(), taken: Vec::new() };
        proof {
            assert(l@.workshops =~= Seq::<WorkshopView>::empty());
            assert(l@.taken =~= Seq::<TakenView>::empty());
        }
        l
    }

    fn find_member(&self, gnum: u32) -> (r: Option<usize>)
        ensures
            match r {
                Some(i) => 0 <= i < self@.members.len() && self@.members[i as int].gnum == gnum,
                None => !has_member(self@, gnum),
            },
    {
        let mut i: usize = 0;
        while i < self.members.len()
            invariant
                0 <= i <= self.members@.len(),
                forall|j: int| 0 <= j < i ==> self.members@[j].gnum != gnum,
            decreases self.members@.len() - i,
        {
            if self.members[i].gnum == gnum {
                return Some(i);
            }
            i += 1;
        }
        None
    }

    fn find_workshop(&self, wid: &String) -> (r: Option<usize>)
        ensures
            match r {
                Some(i) => 0 <= i < self@.workshops.len() && self@.workshops[i as int].id == wid@,
                None => !has_workshop(self@, wid@),
            },
    {
        let mut i: usize = 0;
        while i < self.workshops.len()
            invariant
                0 <= i <= self.workshops@.len(),
                forall|j: int| 0 <= j < i ==> self@.workshops[j].id != wid@,
            decreases self.workshops@.len() - i,
        {
            if self.workshops[i].id == *wid {
                return Some(i);
            }
            i += 1;
        }
        None
    }

    fn find_pair(&self, gnum: u32, wid: &String) -> (r: Option<usize>)
        ensures
            match r {
                Some(i) => 0 <= i < self@.taken.len() && self@.taken[i as int].member == gnum
                    && self@.taken[i as int].workshop == wid@,
                None => !pair_taken(self@, gnum, wid@),
            },
    {
        let mut i: usize = 0;
        while i < self.taken.len()
            invariant
                0 <= i <= self.taken@.len(),
                forall|j: int|
                    0 <= j < i ==> !(self@.taken[j].member == gnum && self@.taken[j].workshop
                        == wid@),
            decreases self.taken@.len() - i,
        {
            if self.taken[i].member == gnum && self.taken[i].workshop == *wid {
                return Some(i);
            }
            i += 1;
        }
        None
    }

    fn taken_id_in_use(&self, id: &String) -> (r: bool)
        ensures
            r == taken_id_used(self@, id@),
    {
        let mut i: usize = 0;
        while i < self.taken.len()
            invariant
                0 <= i <= self.taken@.len(),
                forall|j: int| 0 <= j < i ==> self@.taken[j].id != id@,
            decreases self.taken@.len() - i,
        {
            if self.taken[i].id == *id {
                proof {
                    assert(self@.taken[i as int].id == id@);
                }
                return true;
            }
            i += 1;
        }
        false
    }

    /// Record a completion with a caller-supplied record id; the exact
    /// outcome for every input is `spec_record`. On success the stored
    /// record and the referenced workshop come back.
    pub fn record_attendance(&mut self, gnum: u32, workshop_id: &String, fresh_id: String) -> (r:
        Result<(Taken, Workshop), TakeWorkshopError>)
        requires
            old(self)@.wf(),
        ensures
            final(self)@.wf(),
            final(self)@ == spec_record(old(self)@, gnum, workshop_id@, fresh_id@).0,
            (match (r, spec_record(old(self)@, gnum, workshop_id@, fresh_id@).1) {
                (Ok(p), Ok(tv)) => p.0@ == tv && p.1@.id == workshop_id@ && old(
                    self,
                )@.workshops.contains(p.1@),
                (Err(e), Err(ev)) => e == ev,
                _ => false,
            }),
    {
        if self.find_member(gnum).is_none() {
            return Err(TakeWorkshopError::NotFound);
        }
        let w_idx: usize = match self.find_workshop(workshop_id) {
            Some(i) => i,
            None => { return Err(TakeWorkshopError::NotFound) },
        };
        if self.find_pair(gnum, workshop_id).is_some() {
            return Err(TakeWorkshopError::AlreadyTook);
        }
        if self.taken_id_in_use(&fresh_id) {
            return Err(TakeWorkshopError::DBError);
        }
        let w = self.workshops[w_idx].clone();
        let t = Taken { id: fresh_id, member: gnum, workshop: workshop_id.clone() };
        let t_ret = t.clone();
        proof {
            assert(self@.workshops.contains(w@));
        }
        self.taken.push(t);
        proof {
            assert(final(self)@.taken =~= old(self)@.taken.push(t_ret@));
            assert(final(self)@ =~= spec_record(old(self)@, gnum, workshop_id@, t_ret@.id).0);
        }
        Ok((t_ret, w))
    }

    /// Record that a member took a workshop, drawing a fresh record id.
    /// The pair's uniqueness decides the outcome; only a collision of the
    /// drawn id (never promised impossible) can yield `DBError`.
    pub fn take_workshop(&mut self, gnum: u32, workshop_id: &String) -> (r: Result<
        (Taken, Workshop),
        TakeWorkshopError,
    >)
        requires
            old(self)@.wf(),
        ensures
            final(self)@.wf(),
            final(self)@.members == old(self)@.members,
            final(self)@.workshops == old(self)@.workshops,
            r is Err ==> final(self)@ == old(self)@,
            (r matches Err(TakeWorkshopError::NotFound)) <==> (!has_member(old(self)@, gnum)
                || !has_workshop(old(self)@, workshop_id@)),
            (r matches Err(TakeWorkshopError::AlreadyTook)) <==> (has_member(old(self)@, gnum)
                && has_workshop(old(self)@, workshop_id@) && pair_taken(
                old(self)@,
                gnum,
                workshop_id@,
            )),
            r matches Err(TakeWorkshopError::DBError) ==> !pair_taken(
                old(self)@,
                gnum,
                workshop_id@,
            ),
            r matches Ok(p) ==> p.0@.member == gnum && p.0@.workshop == workshop_id@
                && !taken_id_used(old(self)@, p.0@.id) && !pair_taken(
                old(self)@,
                gnum,
                workshop_id@,
            ) && final(self)@.taken == old(self)@.taken.push(p.0@) && p.1@.id == workshop_id@
                && old(self)@.workshops.contains(p.1@),
    {
        let fresh_id = fresh_uuid_string();
        self.record_attendance(gnum, workshop_id, fresh_id)
    }

    /// Whether a member row carries this membership number.
    pub fn is_member(&self, gnum: u32) -> (r: bool)
        ensures
            r == has_member(self@, gnum),
    {
        self.find_member(gnum).is_some()
    }

    /// How many member rows the store holds.
    pub fn member_count(&self) -> (n: usize)
        ensures
            n == self@.members.len(),
    {
        self.members.len()
    }

    /// Reverse a previously recorded completion, keyed by the pair (the
    /// caller does not know the record id); the exact outcome for every
    /// input is `spec_reverse`.
    pub fn untake_workshop(&mut self, gnum: u32, workshop_id: &String) -> (r: Result<
        (Taken, Workshop),
        TakeWorkshopError,
    >)
        requires
            old(self)@.wf(),
        ensures
            final(self)@.wf(),
            final(self)@ == spec_reverse(old(self)@, gnum, workshop_id@).0,
            (match (r, spec_reverse(old(self)@, gnum, workshop_id@).1) {
                (Ok(p), Ok(tv)) => p.0@ == tv && p.1@.id == workshop_id@ && old(
                    self,
                )@.workshops.contains(p.1@),
                (Err(e), Err(ev)) => e == ev,
                _ => false,
            }),
    {
        if self.find_member(gnum).is_none() {
            return Err(TakeWorkshopError::NotFound);
        }
        let w_idx: usize = match self.find_workshop(workshop_id) {
            Some(i) => i,
            None => { return Err(TakeWorkshopError::NotFound) },
        };
        let t_idx: usize = match self.find_pair(gnum, workshop_id) {
            Some(i) => i,
            None => { return Err(TakeWorkshopError::NotFound) },
        };
        let w = self.workshops[w_idx].clone();
        proof {
            assert(self@.workshops.contains(w@));
            let ci = taken_pair_at(self@, gnum, workshop_id@);
            assert(pair_taken(self@, gnum, workshop_id@));
            if ci < t_idx as int {
                assert(!(self@.taken[ci].member == self@.taken[t_idx as int].member
                    && self@.taken[ci].workshop == self@.taken[t_idx as int].workshop));
            } else if t_idx < ci {
                assert(!(self@.taken[t_idx as int].member == self@.taken[ci].member
                    && self@.taken[t_idx as int].workshop == self@.taken[ci].workshop));
            }
            assert(ci == t_idx as int);
        }
        let t = self.taken.remove(t_idx);
        proof {
            assert(final(self)@.taken =~= old(self)@.taken.remove(t_idx as int));
            assert(final(self)@ =~= spec_reverse(old(self)@, gnum, workshop_id@).0);
        }
        Ok((t, w))
    }

    /// A member's completion history joined with workshop names, in
    /// record order. Never fails: history is advisory display data.
    pub fn list_attendance(&self, gnum: u32) -> (r: Vec<(Taken, Workshop)>)
        requires
            self@.wf(),
        ensures
            r@.map_values(|p: (Taken, Workshop)| (p.0@, p.1@)) == spec_attendance(self@, gnum),
    {
        let mut out: Vec<(Taken, Workshop)> = Vec::new();
        let mut i: usize = 0;
        proof {
            assert(out@.map_values(|p: (Taken, Workshop)| (p.0@, p.1@)) =~= spec_attendance_of(
                self@,
                self@.taken.take(0),
                gnum,
            ));
        }
        while i < self.taken.len()
            invariant
                self@.wf(),
                0 <= i <= self.taken@.len(),
                self@.taken.len() == self.taken@.len(),
                out@.map_values(|p: (Taken, Workshop)| (p.0@, p.1@)) == spec_attendance_of(
                    self@,
                    self@.taken.take(i as int),
                    gnum,
                ),
            decreases self.taken@.len() - i,
        {
            proof {
                assert(self@.taken.take(i + 1 as int).drop_last() =~= self@.taken.take(i as int));
                assert(self@.taken.take(i + 1 as int).last() == self@.taken[i as int]);
            }
            if self.taken[i].member == gnum {
                match self.find_workshop(&self.taken[i].workshop) {
                    Some(w_idx) => {
                        let w = self.workshops[w_idx].clone();
                        let t = self.taken[i].clone();
                        proof {
                            let ci = choose|k: int|
                                0 <= k < self@.workshops.len() && self@.workshops[k].id
                                    == t@.workshop;
                            assert(has_workshop(self@, t@.workshop));
                            if ci < w_idx as int {
                                assert(self@.workshops[ci].id != self@.workshops[w_idx as int].id);
                            } else if w_idx < ci {
                                assert(self@.workshops[w_idx as int].id != self@.workshops[ci].id);
                            }
                            assert(workshop_at(self@, t@.workshop) == w@);
                        }
                        out.push((t, w));
                        proof {
                            assert(out@.map_values(|p: (Taken, Workshop)| (p.0@, p.1@))
                                =~= spec_attendance_of(self@, self@.taken.take(i + 1 as int), gnum));
                        }
                    },
                    None => {
                        proof {
                            assert(!has_workshop(self@, self@.taken[i as int].workshop));
                        }
                    },
                }
            }
            i += 1;
        }
        proof {
            assert(self@.taken.take(self.taken@.len() as int) =~= self@.taken);
        }
        out
    }

    /// The whole workshop catalog, in insertion order.
    pub fn list_workshops(&self) -> (r: Vec<Workshop>)
        ensures
            r@.map_values(|w: Workshop| w@) == self@.workshops,
    {
        let mut out: Vec<Workshop> = Vec::new();
        let mut i: usize = 0;
        while i < self.workshops.len()
            invariant
                0 <= i <= self.workshops@.len(),
                self@.workshops.len() == self.workshops@.len(),
                out@.len() == i,
                forall|j: int| 0 <= j < i ==> out@[j]@ == self@.workshops[j],
            decreases self.workshops@.len() - i,
        {
            out.push(self.workshops[i].clone());
            i += 1;
        }
        proof {
            assert(out@.map_values(|w: Workshop| w@) =~= self@.workshops);
        }
        out
    }

    /// Create a workshop row under a caller-supplied id; the exact outcome
    /// is `spec_create_workshop`.
    pub fn create_workshop(&mut self, name: String, fresh_id: String) -> (r: Result<(), ()>)
        requires
            old(self)@.wf(),
        ensures
            final(self)@.wf(),
            final(self)@ == spec_create_workshop(old(self)@, name@, fresh_id@).0,
            r is Ok <==> spec_create_workshop(old(self)@, name@, fresh_id@).1,
    {
        if self.find_workshop(&fresh_id).is_some() {
            return Err(());
        }
        self.workshops.push(Workshop { id: fresh_id, name });
        proof {
            assert(final(self)@.workshops =~= spec_create_workshop(
                old(self)@,
                name@,
                fresh_id@,
            ).0.workshops);
            assert(final(self)@ =~= spec_create_workshop(old(self)@, name@, fresh_id@).0);
        }
        Ok(())
    }

    /// Create a workshop from its form, drawing a fresh id for it. Only a
    /// collision of the drawn id (never promised impossible) makes this
    /// fail.
    pub fn add_workshop(&mut self, form: CreateWorkshopForm) -> (r: Result<(), ()>)
        requires
            old(self)@.wf(),
        ensures
            final(self)@.wf(),
            final(self)@.members == old(self)@.members,
            final(self)@.taken == old(self)@.taken,
            r is Err ==> final(self)@ == old(self)@,
            r is Ok ==> final(self)@.workshops.len() == old(self)@.workshops.len() + 1
                && final(self)@.workshops.last().name == form.name@ && !has_workshop(
                old(self)@,
                final(self)@.workshops.last().id,
            ) && final(self)@.workshops == old(self)@.workshops.push(
                final(self)@.workshops.last(),
            ),
    {
        let fresh_id = fresh_uuid_string();
        let CreateWorkshopForm { name } = form;
        self.create_workshop(name, fresh_id)
    }

    /// Delete a workshop row by id; deleting an absent id is not an error,
    /// and completion records are left untouched.
    pub fn delete_workshop(&mut self, workshop_id: &String) -> (r: Result<(), ()>)
        requires
            old(self)@.wf(),
        ensures
            final(self)@.wf(),
            final(self)@ == spec_delete_workshop(old(self)@, workshop_id@),
            r is Ok,
    {
        match self.find_workshop(workshop_id) {
            Some(i) => {
                proof {
                    let ci = choose|k: int|
                        0 <= k < self@.workshops.len() && self@.workshops[k].id == workshop_id@;
                    assert(has_workshop(self@, workshop_id@));
                    if ci < i as int {
                        assert(self@.workshops[ci].id != self@.workshops[i as int].id);
                    } else if i < ci {
                        assert(self@.workshops[i as int].id != self@.workshops[ci].id);
                    }
                    assert(ci == i as int);
                }
                self.workshops.remove(i);
                proof {
                    assert(final(self)@.workshops =~= spec_delete_workshop(
                        old(self)@,
                        workshop_id@,
                    ).workshops);
                    assert(final(self)@ =~= spec_delete_workshop(old(self)@, workshop_id@));
                }
                Ok(())
            },
            None => Ok(()),
        }
    }

    /// Record that this membership number exists; a second call with the
    /// same number changes nothing.
    pub fn upsert_member(&mut self, gnum: u32)
        requires
            old(self)@.wf(),
        ensures
            final(self)@ == spec_upsert(old(self)@, gnum),
            final(self)@.wf(),
    {
        if self.find_member(gnum).is_none() {
            self.members.push(Member { gnum, is_staff: false });
        }
        proof {
            assert(final(self)@ =~= spec_upsert(old(self)@, gnum));
        }
    }
}

/// Relies on uuid::Uuid::new_v4 and uuid's Display form: a freshly drawn
/// random version-4 UUID rendered as 36 hyphenated ASCII characters.
/// Nothing is assumed about which UUID comes back.
#[verifier::external_body]
fn fresh_uuid_string() -> (r: String)
    ensures
        r@.len() == 36,
{
    uuid::Uuid::new_v4().to_string()
}

/// Exactly-once attendance: once recording a pair has succeeded, recording
/// the same pair again fails with `AlreadyTook` and leaves the ledger
/// unchanged — two successes can never happen, whatever ids are drawn.
pub proof fn lemma_record_twice(l: LedgerView, gnum: u32, wid: Seq<char>, id1: Seq<char>, id2: Seq<char>)
    requires
        spec_record(l, gnum, wid, id1).1 is Ok,
    ensures
        spec_record(spec_record(l, gnum, wid, id1).0, gnum, wid, id2).1 == Err::<
            TakenView,
            TakeWorkshopError,
        >(TakeWorkshopError::AlreadyTook),
        spec_record(spec_record(l, gnum, wid, id1).0, gnum, wid, id2).0 == spec_record(
            l,
            gnum,
            wid,
            id1,
        ).0,
{
    let l1 = spec_record(l, gnum, wid, id1).0;
    assert(l1.taken[l.taken.len() as int].member == gnum);
    assert(pair_taken(l1, gnum, wid));
    let mi = choose|i: int| 0 <= i < l.members.len() && l.members[i].gnum == gnum;
    assert(l1.members[mi].gnum == gnum);
    assert(has_member(l1, gnum));
    let wi = choose|i: int| 0 <= i < l.workshops.len() && l.workshops[i].id == wid;
    assert(l1.workshops[wi].id == wid);
    assert(has_workshop(l1, wid));
}

/// Round trip: after a successful record of a pair, reversing that pair
/// succeeds and returns exactly the record that was stored, the ledger is
/// restored to what it was, and a second reversal of the same pair then
/// fails with `NotFound` instead of reporting a stale success.
pub proof fn lemma_record_reverse_round_trip(l: LedgerView, gnum: u32, wid: Seq<char>, id: Seq<char>)
    requires
        l.wf(),
        spec_record(l, gnum, wid, id).1 is Ok,
    ensures
        spec_reverse(spec_record(l, gnum, wid, id).0, gnum, wid).1 == Ok::<
            TakenView,
            TakeWorkshopError,
        >(spec_record(l, gnum, wid, id).1->Ok_0),
        spec_reverse(spec_record(l, gnum, wid, id).0, gnum, wid).0 == l,
        spec_reverse(l, gnum, wid).1 == Err::<TakenView, TakeWorkshopError>(
            TakeWorkshopError::NotFound,
        ),
{
    let l1 = spec_record(l, gnum, wid, id).0;
    let t = spec_record(l, gnum, wid, id).1->Ok_0;
    let n = l.taken.len() as int;
    assert(l1.taken[n] == t);
    assert(pair_taken(l1, gnum, wid));
    let mi = choose|i: int| 0 <= i < l.members.len() && l.members[i].gnum == gnum;
    assert(l1.members[mi].gnum == gnum);
    assert(has_member(l1, gnum));
    let wi = choose|i: int| 0 <= i < l.workshops.len() && l.workshops[i].id == wid;
    assert(l1.workshops[wi].id == wid);
    assert(has_workshop(l1, wid));
    let ci = taken_pair_at(l1, gnum, wid);
    assert(0 <= ci < l1.taken.len() && l1.taken[ci].member == gnum && l1.taken[ci].workshop
        == wid);
    if ci < n {
        assert(l1.taken[ci] == l.taken[ci]);
        assert(pair_taken(l, gnum, wid));
        assert(false);
    }
    assert(ci == n);
    assert(l1.taken.remove(n) =~= l.taken);
    assert(spec_reverse(l1, gnum, wid).0 =~= l);
}

proof fn lemma_attendance_of_empty(l: LedgerView, taken: Seq<TakenView>, gnum: u32)
    requires
        forall|i: int| 0 <= i < taken.len() ==> taken[i].member != gnum,
    ensures
        spec_attendance_of(l, taken, gnum) == Seq::<(TakenView, WorkshopView)>::empty(),
    decreases taken.len(),
{
    if taken.len() > 0 {
        lemma_attendance_of_empty(l, taken.drop_last(), gnum);
    }
}

/// A member with no recorded completions has the empty history — listing
/// never turns the lack of records into an error.
pub proof fn lemma_attendance_empty(l: LedgerView, gnum: u32)
    requires
        forall|i: int| 0 <= i < l.taken.len() ==> l.taken[i].member != gnum,
    ensures
        spec_attendance(l, gnum) == Seq::<(TakenView, WorkshopView)>::empty(),
{
    lemma_attendance_of_empty(l, l.taken, gnum);
}

/// How many member rows carry this membership number.
pub open spec fn gnum_count(members: Seq<Member>, gnum: u32) -> nat
    decreases members.len(),
{
    if members.len() == 0 {
        0
    } else {
        gnum_count(members.drop_last(), gnum) + if members.last().gnum == gnum {
            1nat
        } else {
            0nat
        }
    }
}

proof fn lemma_gnum_count_unique(members: Seq<Member>, gnum: u32)
    requires
        forall|i: int, j: int|
            0 <= i < j < members.len() ==> members[i].gnum != members[j].gnum,
    ensures
        gnum_count(members, gnum) == if exists|i: int|
            0 <= i < members.len() && members[i].gnum == gnum {
            1nat
        } else {
            0nat
        },
    decreases members.len(),
{
    if members.len() > 0 {
        let m = members.drop_last();
        lemma_gnum_count_unique(m, gnum);
        let last = members.len() - 1;
        if members.last().gnum == gnum {
            assert(members[last].gnum == gnum);
            if exists|i: int| 0 <= i < m.len() && m[i].gnum == gnum {
                let i = choose|i: int| 0 <= i < m.len() && m[i].gnum == gnum;
                assert(members[i].gnum != members[last].gnum);
                assert(false);
            }
        } else {
            if exists|i: int| 0 <= i < members.len() && members[i].gnum == gnum {
                let i = choose|i: int| 0 <= i < members.len() && members[i].gnum == gnum;
                assert(0 <= i < m.len() && m[i].gnum == gnum);
            }
        }
    }
}

/// Upserting a membership number twice is the same as doing it once, and
/// afterwards exactly one member row carries the number, with the
/// uniqueness rules intact.
pub proof fn lemma_upsert_idempotent(l: LedgerView, gnum: u32)
    requires
        l.wf(),
    ensures
        spec_upsert(spec_upsert(l, gnum), gnum) == spec_upsert(l, gnum),
        spec_upsert(l, gnum).wf(),
        has_member(spec_upsert(l, gnum), gnum),
        gnum_count(spec_upsert(l, gnum).members, gnum) == 1,
{
    let l1 = spec_upsert(l, gnum);
    if !has_member(l, gnum) {
        assert(l1.members[l.members.len() as int].gnum == gnum);
    }
    assert(has_member(l1, gnum));
    lemma_gnum_count_unique(l1.members, gnum);
}

} // verus!
