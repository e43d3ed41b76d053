//! Dense integer identifiers for cube states.
//!
//! A state is identified by a `PermId`, which combines a `PosId` (the rank,
//! in `[0, 5040)`, of the arrangement of the seven free corner slots) and a
//! `RotId` (the six free orientations packed as a base-3 number in
//! `[0, 729)`) as `id = 5040 * rot + pos`.

use vstd::prelude::*;

verus! {

/// Number of distinct arrangements of the seven free corner slots (7!).
pub const PERMID_POSCOUNT: u32 = 5040;

/// Number of distinct packings of the six free corner orientations (3^6).
pub const PERMID_ROTCOUNT: u32 = 729;

/// Total number of reachable states: 7! * 3^6.
pub const PERMID_COUNT: usize = 3674160;

/// Packed orientation identifier, valid in `[0, 729)`.
#[derive(Debug, Copy, Clone)]
pub struct RotId {
    rid: u32,
}

/// Position-permutation rank, valid in `[0, 5040)`.
#[derive(Debug, Copy, Clone)]
pub struct PosId {
    pid: u32,
}

/// Composite state identifier, valid in `[0, 3674160)`.
#[derive(Debug, Copy, Clone)]
pub struct PermId {
    id: u32,
    rid: RotId,
    pid: PosId,
}

impl RotId {
    pub closed spec fn spec_id(self) -> int {
        self.rid as int
    }

    pub closed spec fn wf(self) -> bool {
        self.rid < PERMID_ROTCOUNT
    }

    pub fn new(rid: u32) -> (r: Self)
        requires
            rid < PERMID_ROTCOUNT,
        ensures
            r.wf(),
            r.spec_id() == rid,
    {
        Self { rid }
    }

    pub fn get_id(&self) -> (r: u32)
        ensures
            r == self.spec_id(),
    {
        self.rid
    }
}

impl PosId {
    pub closed spec fn spec_id(self) -> int {
        self.pid as int
    }

    pub closed spec fn wf(self) -> bool {
        self.pid < PERMID_POSCOUNT
    }

    pub fn new(pid: u32) -> (r: Self)
        requires
            pid < PERMID_POSCOUNT,
        ensures
            r.wf(),
            r.spec_id() == pid,
    {
        Self { pid }
    }

    pub fn get_id(&self) -> (r: u32)
        ensures
            r == self.spec_id(),
    {
        self.pid
    }
}

impl PermId {
    pub closed spec fn spec_id(self) -> int {
        self.id as int
    }

    pub closed spec fn spec_pos_id(self) -> int {
        self.pid.spec_id()
    }

    pub closed spec fn spec_rot_id(self) -> int {
        self.rid.spec_id()
    }

    pub closed spec fn wf(self) -> bool {
        &&& self.pid.wf()
        &&& self.rid.wf()
        &&& self.id == PERMID_POSCOUNT * self.rid.spec_id() + self.pid.spec_id()
    }

    pub fn new(pid: &PosId, rid: &RotId) -> (r: Self)
        requires
            pid.wf(),
            rid.wf(),
        ensures
            r.wf(),
            r.spec_id() == PERMID_POSCOUNT * rid.spec_id() + pid.spec_id(),
            r.spec_pos_id() == pid.spec_id(),
            r.spec_rot_id() == rid.spec_id(),
    {
        let id = PERMID_POSCOUNT * rid.get_id() + pid.get_id();
        Self { id, pid: *pid, rid: *rid }
    }

    /// Splits a raw identifier into its position and orientation parts.
    pub fn from_id(id: u32) -> (r: Self)
        requires
            id < PERMID_COUNT as u32,
        ensures
            r.wf(),
            r.spec_id() == id,
            r.spec_pos_id() == id as int % 5040,
            r.spec_rot_id() == id as int / 5040,
    {
        let p_id = id % PERMID_POSCOUNT;
        let r_id = id / PERMID_POSCOUNT;
        Self { id, pid: PosId::new(p_id), rid: RotId::new(r_id) }
    }

    pub fn get_rot_id(&self) -> (r: &RotId)
        ensures
            r.spec_id() == self.spec_rot_id(),
            self.wf() ==> r.wf(),
    {
        &self.rid
    }

    pub fn get_pos_id(&self) -> (r: &PosId)
        ensures
            r.spec_id() == self.spec_pos_id(),
            self.wf() ==> r.wf(),
    {
        &self.pid
    }

    pub fn get_id(&self) -> (r: u32)
        ensures
            r == self.spec_id(),
    {
        self.id
    }

    /// A well-formed composite identifier decomposes as `5040 * rot + pos`
    /// with `pos` in `[0, 5040)` and `rot` in `[0, 729)`, so it lies in
    /// `[0, 3674160)`, and `pos` and `rot` are its remainder and quotient
    /// modulo 5040.
    pub proof fn lemma_wf(self)
        requires
            self.wf(),
        ensures
            0 <= self.spec_pos_id() < 5040,
            0 <= self.spec_rot_id() < 729,
            self.spec_id() == 5040 * self.spec_rot_id() + self.spec_pos_id(),
            0 <= self.spec_id() < 3674160,
            self.spec_pos_id() == self.spec_id() % 5040,
            self.spec_rot_id() == self.spec_id() / 5040,
    {
        vstd::arithmetic::div_mod::lemma_fundamental_div_mod_converse(
            self.spec_id(),
            5040,
            self.spec_rot_id(),
            self.spec_pos_id(),
        );
    }
}

} // verus!
