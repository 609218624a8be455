//! Flags that configure insert, query, remove and update operations.
use vstd::prelude::*;

verus! {

/// A set of flags of one kind.
pub struct Flags<T> {
    flags: Vec<T>,
}

impl<T> View for Flags<T> {
    type V = Set<T>;

    closed spec fn view(&self) -> Set<T> {
        Set::new(|f: T| self.flags@.contains(f))
    }
}

impl<T> Flags<T> {
    /// No flags.
    pub fn new() -> (r: Flags<T>)
        ensures
            r@ == Set::<T>::empty(),
    {
        let r = Flags { flags: Vec::new() };
        assert(r@ =~= Set::<T>::empty());
        r
    }

    /// Adds `flag`; adding one that is present changes nothing.
    pub fn add(&mut self, flag: T)
        ensures
            final(self)@ == old(self)@.insert(flag),
    {
        let ghost before = self.flags@;
        self.flags.push(flag);
        proof {
            lemma_push_contains(before, flag);
            assert(final(self)@ =~= old(self)@.insert(flag));
        }
    }
}

/// A sequence with `x` pushed holds what it held, and `x`.
proof fn lemma_push_contains<T>(s: Seq<T>, x: T)
    ensures
        forall|f: T| #[trigger] s.push(x).contains(f) <==> s.contains(f) || x == f,
{
    assert forall|f: T| #[trigger] s.push(x).contains(f) <==> s.contains(f) || x == f by {
        if s.push(x).contains(f) {
            let j = choose|j: int| 0 <= j < s.push(x).len() && s.push(x)[j] == f;
            if j < s.len() {
                assert(s[j] == f);
            }
        }
        if s.contains(f) {
            let j = choose|j: int| 0 <= j < s.len() && s[j] == f;
            assert(s.push(x)[j] == f);
        }
        if x == f {
            assert(s.push(x)[s.len() as int] == f);
        }
    }
}

/// The combined value of a set of flags, as the driver expects it.
pub trait FlagsValue {
    spec fn spec_flags(&self) -> u32;

    fn flags(&self) -> (r: u32)
        ensures
            r == self.spec_flags(),
    ;
}

pub const INSERT_NONE: u32 = 0;
pub const INSERT_CONTINUE_ON_ERROR: u32 = 1;
/// The value that the driver's bindings give to the no-validate flag.
pub const INSERT_NO_VALIDATE: u32 = 31;

/// Flags for insert operations.
#[derive(Clone, Copy, Debug, PartialEq, Eq, PartialOrd, Ord, Hash)]
pub enum InsertFlag {
    ContinueOnError,
    NoValidate,
}

impl FlagsValue for Flags<InsertFlag> {
    open spec fn spec_flags(&self) -> u32 {
        (if self@.contains(InsertFlag::ContinueOnError) { INSERT_CONTINUE_ON_ERROR } else { INSERT_NONE })
            | (if self@.contains(InsertFlag::NoValidate) { INSERT_NO_VALIDATE } else { INSERT_NONE })
    }

    fn flags(&self) -> (r: u32) {
        let mut has_insert_continue_on_error = false;
        let mut has_insert_no_validate = false;
        let mut i: usize = 0;
        while i < self.flags.len()
            invariant
                0 <= i <= self.flags@.len(),
                has_insert_continue_on_error == self.flags@.subrange(0, i as int).contains(InsertFlag::ContinueOnError),
                has_insert_no_validate == self.flags@.subrange(0, i as int).contains(InsertFlag::NoValidate),
            decreases self.flags@.len() - i,
        {
            proof {
                let p = self.flags@.subrange(0, i as int);
                assert(self.flags@.subrange(0, i + 1) =~= p.push(self.flags@[i as int]));
                lemma_push_contains(p, self.flags@[i as int]);
            }
            match self.flags[i] {
                InsertFlag::ContinueOnError => {
                    has_insert_continue_on_error = true;
                },
                InsertFlag::NoValidate => {
                    has_insert_no_validate = true;
                },
            }
            i = i + 1;
        }
        proof {
            assert(self.flags@.subrange(0, i as int) =~= self.flags@);
        }
        (if has_insert_continue_on_error { INSERT_CONTINUE_ON_ERROR } else { INSERT_NONE })
            | (if has_insert_no_validate { INSERT_NO_VALIDATE } else { INSERT_NONE })
    }
}

pub const QUERY_NONE: u32 = 0;
pub const QUERY_TAILABLE_CURSOR: u32 = 2;
pub const QUERY_SLAVE_OK: u32 = 4;
pub const QUERY_OPLOG_REPLAY: u32 = 8;
pub const QUERY_NO_CURSOR_TIMEOUT: u32 = 16;
pub const QUERY_AWAIT_DATA: u32 = 32;
pub const QUERY_EXHAUST: u32 = 64;
pub const QUERY_PARTIAL: u32 = 128;

/// Flags for query operations.
#[derive(Clone, Copy, Debug, PartialEq, Eq, PartialOrd, Ord, Hash)]
pub enum QueryFlag {
    TailableCursor,
    SlaveOk,
    OplogReplay,
    NoCursorTimeout,
    AwaitData,
    Exhaust,
    Partial,
}

impl FlagsValue for Flags<QueryFlag> {
    open spec fn spec_flags(&self) -> u32 {
        (if self@.contains(QueryFlag::TailableCursor) { QUERY_TAILABLE_CURSOR } else { QUERY_NONE })
            | (if self@.contains(QueryFlag::SlaveOk) { QUERY_SLAVE_OK } else { QUERY_NONE })
            | (if self@.contains(QueryFlag::OplogReplay) { QUERY_OPLOG_REPLAY } else { QUERY_NONE })
            | (if self@.contains(QueryFlag::NoCursorTimeout) { QUERY_NO_CURSOR_TIMEOUT } else { QUERY_NONE })
            | (if self@.contains(QueryFlag::AwaitData) { QUERY_AWAIT_DATA } else { QUERY_NONE })
            | (if self@.contains(QueryFlag::Exhaust) { QUERY_EXHAUST } else { QUERY_NONE })
            | (if self@.contains(QueryFlag::Partial) { QUERY_PARTIAL } else { QUERY_NONE })
    }

    fn flags(&self) -> (r: u32) {
        let mut has_query_tailable_cursor = false;
        let mut has_query_slave_ok = false;
        let mut has_query_oplog_replay = false;
        let mut has_query_no_cursor_timeout = false;
        let mut has_query_await_data = false;
        let mut has_query_exhaust = false;
        let mut has_query_partial = false;
        let mut i: usize = 0;
        while i < self.flags.len()
            invariant
                0 <= i <= self.flags@.len(),
                has_query_tailable_cursor == self.flags@.subrange(0, i as int).contains(QueryFlag::TailableCursor),
                has_query_slave_ok == self.flags@.subrange(0, i as int).contains(QueryFlag::SlaveOk),
                has_query_oplog_replay == self.flags@.subrange(0, i as int).contains(QueryFlag::OplogReplay),
                has_query_no_cursor_timeout == self.flags@.subrange(0, i as int).contains(QueryFlag::NoCursorTimeout),
                has_query_await_data == self.flags@.subrange(0, i as int).contains(QueryFlag::AwaitData),
                has_query_exhaust == self.flags@.subrange(0, i as int).contains(QueryFlag::Exhaust),
                has_query_partial == self.flags@.subrange(0, i as int).contains(QueryFlag::Partial),
            decreases self.flags@.len() - i,
        {
            proof {
                let p = self.flags@.subrange(0, i as int);
                assert(self.flags@.subrange(0, i + 1) =~= p.push(self.flags@[i as int]));
                lemma_push_contains(p, self.flags@[i as int]);
            }
            match self.flags[i] {
                QueryFlag::TailableCursor => {
                    has_query_tailable_cursor = true;
                },
                QueryFlag::SlaveOk => {
                    has_query_slave_ok = true;
                },
                QueryFlag::OplogReplay => {
                    has_query_oplog_replay = true;
                },
                QueryFlag::NoCursorTimeout => {
                    has_query_no_cursor_timeout = true;
                },
                QueryFlag::AwaitData => {
                    has_query_await_data = true;
                },
                QueryFlag::Exhaust => {
                    has_query_exhaust = true;
                },
                QueryFlag::Partial => {
                    has_query_partial = true;
                },
            }
            i = i + 1;
        }
        proof {
            assert(self.flags@.subrange(0, i as int) =~= self.flags@);
        }
        (if has_query_tailable_cursor { QUERY_TAILABLE_CURSOR } else { QUERY_NONE })
            | (if has_query_slave_ok { QUERY_SLAVE_OK } else { QUERY_NONE })
            | (if has_query_oplog_replay { QUERY_OPLOG_REPLAY } else { QUERY_NONE })
            | (if has_query_no_cursor_timeout { QUERY_NO_CURSOR_TIMEOUT } else { QUERY_NONE })
            | (if has_query_await_data { QUERY_AWAIT_DATA } else { QUERY_NONE })
            | (if has_query_exhaust { QUERY_EXHAUST } else { QUERY_NONE })
            | (if has_query_partial { QUERY_PARTIAL } else { QUERY_NONE })
    }
}

pub const REMOVE_NONE: u32 = 0;
pub const REMOVE_SINGLE_REMOVE: u32 = 1;

/// Flags for remove operations.
#[derive(Clone, Copy, Debug, PartialEq, Eq, PartialOrd, Ord, Hash)]
pub enum RemoveFlag {
    SingleRemove,
}

impl FlagsValue for Flags<RemoveFlag> {
    open spec fn spec_flags(&self) -> u32 {
        (if self@.contains(RemoveFlag::SingleRemove) { REMOVE_SINGLE_REMOVE } else { REMOVE_NONE })
    }

    fn flags(&self) -> (r: u32) {
        let mut has_remove_single_remove = false;
        let mut i: usize = 0;
        while i < self.flags.len()
            invariant
                0 <= i <= self.flags@.len(),
                has_remove_single_remove == self.flags@.subrange(0, i as int).contains(RemoveFlag::SingleRemove),
            decreases self.flags@.len() - i,
        {
            proof {
                let p = self.flags@.subrange(0, i as int);
                assert(self.flags@.subrange(0, i + 1) =~= p.push(self.flags@[i as int]));
                lemma_push_contains(p, self.flags@[i as int]);
            }
            match self.flags[i] {
                RemoveFlag::SingleRemove => {
                    has_remove_single_remove = true;
                },
            }
            i = i + 1;
        }
        proof {
            assert(self.flags@.subrange(0, i as int) =~= self.flags@);
        }
        (if has_remove_single_remove { REMOVE_SINGLE_REMOVE } else { REMOVE_NONE })
    }
}

pub const UPDATE_NONE: u32 = 0;
pub const UPDATE_UPSERT: u32 = 1;
pub const UPDATE_MULTI_UPDATE: u32 = 2;

/// Flags for update operations.
#[derive(Clone, Copy, Debug, PartialEq, Eq, PartialOrd, Ord, Hash)]
pub enum UpdateFlag {
    Upsert,
    MultiUpdate,
}

impl FlagsValue for Flags<UpdateFlag> {
    open spec fn spec_flags(&self) -> u32 {
        (if self@.contains(UpdateFlag::Upsert) { UPDATE_UPSERT } else { UPDATE_NONE })
            | (if self@.contains(UpdateFlag::MultiUpdate) { UPDATE_MULTI_UPDATE } else { UPDATE_NONE })
    }

    fn flags(&self) -> (r: u32) {
        let mut has_update_upsert = false;
        let mut has_update_multi_update = false;
        let mut i: usize = 0;
        while i < self.flags.len()
            invariant
                0 <= i <= self.flags@.len(),
                has_update_upsert == self.flags@.subrange(0, i as int).contains(UpdateFlag::Upsert),
                has_update_multi_update == self.flags@.subrange(0, i as int).contains(UpdateFlag::MultiUpdate),
            decreases self.flags@.len() - i,
        {
            proof {
                let p = self.flags@.subrange(0, i as int);
                assert(self.flags@.subrange(0, i + 1) =~= p.push(self.flags@[i as int]));
                lemma_push_contains(p, self.flags@[i as int]);
            }
            match self.flags[i] {
                UpdateFlag::Upsert => {
                    has_update_upsert = true;
                },
                UpdateFlag::MultiUpdate => {
                    has_update_multi_update = true;
                },
            }
            i = i + 1;
        }
        proof {
            assert(self.flags@.subrange(0, i as int) =~= self.flags@);
        }
        (if has_update_upsert { UPDATE_UPSERT } else { UPDATE_NONE })
            | (if has_update_multi_update { UPDATE_MULTI_UPDATE } else { UPDATE_NONE })
    }
}

} // verus!
