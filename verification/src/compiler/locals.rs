//! The local variables that are in scope while a program is compiled. The
//! position of a local in this table is its slot on the value stack of the
//! machine.

use crate::bytecode::store::eco_text;
use ecow::EcoString;
use vstd::prelude::*;
use vstd::string::StringSliceAdditionalSpecFns;

verus! {

/// The largest number of locals in scope at one time: an instruction names
/// a slot by a single byte.
pub const MAX_LOCALS: usize = 256;

/// What a table of locals holds.
pub struct LocalsView {
    /// The name of each local and the depth of the scope that declared it,
    /// the oldest first.
    pub entries: Seq<(Seq<char>, u8)>,
    /// The depth of the current scope; 0 is the global scope.
    pub depth: u8,
}

impl LocalsView {
    /// The table's invariant: it holds at most `MAX_LOCALS` locals, a local
    /// of a shallower scope comes before one of a deeper scope, and none is
    /// deeper than the current scope.
    pub open spec fn wf(self) -> bool {
        &&& self.entries.len() <= MAX_LOCALS
        &&& forall|i: int, j: int|
            0 <= i <= j < self.entries.len() ==> self.entries[i].1 <= self.entries[j].1
        &&& forall|i: int| 0 <= i < self.entries.len() ==> (#[trigger] self.entries[i]).1 <= self.depth
    }

    /// Whether slot `i` holds the local that `name` refers to: the last one
    /// declared under that name.
    pub open spec fn resolves(self, name: Seq<char>, i: int) -> bool {
        &&& 0 <= i < self.entries.len()
        &&& self.entries[i].0 == name
        &&& forall|j: int| i < j < self.entries.len() ==> (#[trigger] self.entries[j]).0 != name
    }

    /// Whether a local is declared under `name`.
    pub open spec fn declares(self, name: Seq<char>) -> bool {
        exists|i: int| 0 <= i < self.entries.len() && (#[trigger] self.entries[i]).0 == name
    }

    /// The slot of the local that `name` refers to, if there is one.
    pub open spec fn find(self, name: Seq<char>) -> Option<u8> {
        if self.declares(name) {
            Some((choose|i: int| self.resolves(name, i)) as u8)
        } else {
            None
        }
    }

    /// The table with one more local in the current scope; a full table
    /// stays as it is.
    pub open spec fn push(self, name: Seq<char>) -> LocalsView {
        if self.entries.len() >= MAX_LOCALS {
            self
        } else {
            LocalsView { entries: self.entries.push((name, self.depth)), ..self }
        }
    }

    /// The table in a new scope, one deeper.
    pub open spec fn enter(self) -> LocalsView {
        LocalsView { depth: (self.depth + 1) as u8, ..self }
    }

    /// The number of locals of scopes shallower than the current one. The
    /// table is sorted by depth, so these are its first entries.
    pub open spec fn kept(self) -> int
        decreases self.entries.len(),
    {
        if self.entries.len() == 0 || self.entries.last().1 < self.depth {
            self.entries.len() as int
        } else {
            (LocalsView { entries: self.entries.drop_last(), ..self }).kept()
        }
    }

    /// The table after the current scope was left: its locals are gone.
    pub open spec fn exit(self) -> LocalsView {
        LocalsView { entries: self.entries.take(self.kept()), depth: (self.depth - 1) as u8 }
    }

    /// The locals of the current scope are the last ones of the table.
    pub proof fn kept_splits(self)
        requires
            self.wf(),
        ensures
            0 <= self.kept() <= self.entries.len(),
            forall|i: int| 0 <= i < self.kept() ==> (#[trigger] self.entries[i]).1 < self.depth,
            forall|i: int|
                self.kept() <= i < self.entries.len() ==> (#[trigger] self.entries[i]).1
                    == self.depth,
        decreases self.entries.len(),
    {
        if self.entries.len() == 0 {
        } else if self.entries.last().1 < self.depth {
            assert forall|i: int| 0 <= i < self.entries.len() implies (#[trigger] self.entries[i]).1
                < self.depth by {
                assert(self.entries[i].1 <= self.entries[self.entries.len() - 1].1);
            }
        } else {
            let shorter = LocalsView { entries: self.entries.drop_last(), ..self };
            shorter.kept_splits();
            assert forall|i: int| self.kept() <= i < self.entries.len() implies (
            #[trigger] self.entries[i]).1 == self.depth by {
                if i < self.entries.len() - 1 {
                    assert(shorter.entries[i].1 == self.depth);
                }
            }
            assert forall|i: int| 0 <= i < self.kept() implies (#[trigger] self.entries[i]).1
                < self.depth by {
                assert(shorter.entries[i].1 < self.depth);
            }
        }
    }

    /// The table after the locals `names` were declared, one after the
    /// other.
    pub open spec fn push_all(self, names: Seq<Seq<char>>) -> LocalsView
        decreases names.len(),
    {
        if names.len() == 0 {
            self
        } else {
            self.push_all(names.drop_last()).push(names.last())
        }
    }

    /// A scope gives back what it took: after a scope was entered, locals
    /// were declared in it and the scope was left, the table is as it was
    /// before, and the locals that went are the ones that were declared.
    /// This holds as long as the table has room for them.
    pub proof fn scope_gives_back(self, names: Seq<Seq<char>>)
        requires
            self.wf(),
            self.depth < u8::MAX,
            self.entries.len() + names.len() <= MAX_LOCALS,
        ensures
            self.enter().push_all(names).wf(),
            self.enter().push_all(names).entries == self.entries + Seq::new(
                names.len(),
                |i: int| (names[i], (self.depth + 1) as u8),
            ),
            self.enter().push_all(names).kept() == self.entries.len(),
            self.enter().push_all(names).exit() == self,
        decreases names.len(),
    {
        let inner = self.enter().push_all(names);
        let added = Seq::new(names.len(), |i: int| (names[i], (self.depth + 1) as u8));
        if names.len() == 0 {
            assert(inner.entries =~= self.entries + added);
            self.enter().kept_at_rest();
        } else {
            self.scope_gives_back(names.drop_last());
            let shorter = self.enter().push_all(names.drop_last());
            assert(inner == shorter.push(names.last()));
            assert(inner.entries =~= self.entries + added);
            assert(inner.entries.drop_last() =~= shorter.entries);
            assert(inner.kept() == shorter.kept());
        }
        assert(inner.entries.take(self.entries.len() as int) =~= self.entries);
    }

    /// In a scope without locals of its own, all locals are kept.
    pub proof fn kept_at_rest(self)
        requires
            forall|i: int| 0 <= i < self.entries.len() ==> (#[trigger] self.entries[i]).1 < self.depth,
        ensures
            self.kept() == self.entries.len(),
    {
    }

    /// At most one slot is the one that a name refers to.
    pub proof fn resolves_once(self, name: Seq<char>, i: int, j: int)
        requires
            self.resolves(name, i),
            self.resolves(name, j),
        ensures
            i == j,
    {
    }
}

/// The table of the locals in scope.
#[derive(Debug)]
pub struct Locals {
    stack: Vec<(EcoString, u8)>,
    depth: u8,
}

impl View for Locals {
    type V = LocalsView;

    closed spec fn view(&self) -> LocalsView {
        LocalsView {
            entries: Seq::new(
                self.stack@.len(),
                |i: int| (eco_text(self.stack@[i].0), self.stack@[i].1),
            ),
            depth: self.depth,
        }
    }
}

/// Whether two strings hold the same characters.
pub fn same_text(a: &str, b: &str) -> (r: bool)
    ensures
        r == (a@ == b@),
{
    let left = a.as_bytes();
    let right = b.as_bytes();
    proof {
        vstd::utf8::encode_utf8_decode_utf8(a@);
        vstd::utf8::encode_utf8_decode_utf8(b@);
    }
    if left.len() != right.len() {
        return false;
    }
    let mut i: usize = 0;
    while i < left.len()
        invariant
            left@.len() == right@.len(),
            left@ == a.spec_bytes(),
            right@ == b.spec_bytes(),
            0 <= i <= left@.len(),
            forall|j: int| 0 <= j < i ==> left@[j] == right@[j],
        decreases left@.len() - i,
    {
        if left[i] != right[i] {
            assert(left@[i as int] != right@[i as int]);
            assert(a.spec_bytes() != b.spec_bytes());
            return false;
        }
        i += 1;
    }
    assert(left@ =~= right@);
    true
}

impl Locals {
    /// Whether the table's invariant holds.
    pub open spec fn wf(&self) -> bool {
        self@.wf()
    }

    /// An empty table in the global scope.
    pub fn new() -> (r: Self)
        ensures
            r.wf(),
            r@.entries == Seq::<(Seq<char>, u8)>::empty(),
            r@.depth == 0,
    {
        let r = Self { stack: Vec::with_capacity(256), depth: 0 };
        assert(r@.entries =~= Seq::empty());
        r
    }

    /// The slot of the local that `identifier` refers to: the last one
    /// declared under that name.
    pub fn find_local(&self, identifier: &str) -> (r: Option<u8>)
        requires
            self.wf(),
        ensures
            r == self@.find(identifier@),
            r matches Some(slot) ==> self@.resolves(identifier@, slot as int),
            r is None ==> !self@.declares(identifier@),
    {
        let mut i: usize = self.stack.len();
        while i > 0
            invariant
                self.wf(),
                0 <= i <= self.stack@.len(),
                forall|j: int| i <= j < self@.entries.len() ==> (#[trigger] self@.entries[j]).0
                    != identifier@,
            decreases i,
        {
            i -= 1;
            if same_text(self.stack[i].0.as_str(), identifier) {
                proof {
                    assert(self@.resolves(identifier@, i as int));
                    assert(self@.entries[i as int].0 == identifier@);
                    let found = choose|k: int| self@.resolves(identifier@, k);
                    self@.resolves_once(identifier@, i as int, found);
                }
                return Some(i as u8);
            }
        }
        None
    }

    /// Whether the table takes no more locals.
    pub fn is_full(&self) -> (r: bool)
        ensures
            r == (self@.entries.len() >= MAX_LOCALS),
    {
        self.stack.len() >= MAX_LOCALS
    }

    /// Declares a local in the current scope. A full table takes no more
    /// and says so.
    pub fn push_local(&mut self, identifier: EcoString) -> (r: bool)
        requires
            old(self).wf(),
        ensures
            final(self).wf(),
            r == (old(self)@.entries.len() < MAX_LOCALS),
            final(self)@ == old(self)@.push(eco_text(identifier)),
    {
        if self.stack.len() >= MAX_LOCALS {
            false
        } else {
            self.stack.push((identifier, self.depth));
            assert(self@.entries =~= old(self)@.entries.push((eco_text(identifier), self.depth)));
            true
        }
    }

    /// Opens a scope.
    pub fn enter_scope(&mut self)
        requires
            old(self).wf(),
            old(self)@.depth < u8::MAX,
        ensures
            final(self).wf(),
            final(self)@ == old(self)@.enter(),
    {
        self.depth += 1;
    }

    /// Leaves the current scope and returns the number of locals that went
    /// with it.
    pub fn exit_scope(&mut self) -> (dropped: usize)
        requires
            old(self).wf(),
            old(self)@.depth > 0,
        ensures
            final(self).wf(),
            final(self)@ == old(self)@.exit(),
            dropped == old(self)@.entries.len() - old(self)@.kept(),
    {
        let len: usize = self.stack.len();
        let mut keep: usize = len;
        proof {
            old(self)@.kept_splits();
            assert(self@.entries.take(len as int) =~= self@.entries);
        }
        while keep > 0 && self.stack[keep - 1].1 >= self.depth
            invariant
                self.wf(),
                *self == *old(self),
                len == self.stack@.len(),
                0 <= keep <= len,
                (LocalsView { entries: self@.entries.take(keep as int), ..self@ }).kept()
                    == self@.kept(),
            decreases keep,
        {
            proof {
                let longer = LocalsView { entries: self@.entries.take(keep as int), ..self@ };
                assert(longer.entries.drop_last() =~= self@.entries.take(keep - 1));
            }
            keep -= 1;
        }
        proof {
            let rest = LocalsView { entries: self@.entries.take(keep as int), ..self@ };
            assert(rest.kept() == keep);
        }
        self.stack.truncate(keep);
        self.depth -= 1;
        proof {
            assert(self@.entries =~= old(self)@.entries.take(keep as int));
        }
        len - keep
    }

    /// The depth of the current scope.
    pub fn depth(&self) -> (r: u8)
        ensures
            r == self@.depth,
    {
        self.depth
    }
}

impl Default for Locals {
    fn default() -> (r: Self)
        ensures
            r.wf(),
            r@.entries == Seq::<(Seq<char>, u8)>::empty(),
            r@.depth == 0,
    {
        Self::new()
    }
}

} // verus!
