use vstd::prelude::*;
use crate::boolean::Constraint;
use crate::count::{Count, le, difference, is_sum};
use crate::mode::Mode;

verus! {

/// Why the construction of a circuit stopped: a violation that the constant
/// operands alone already prove, so that no witness could ever satisfy it.
#[derive(Clone, Copy, Debug, PartialEq, Eq, Structural)]
pub enum Halt {
    /// A constant shifted right by a constant amount of at least the width of
    /// its type; `bits` is the width of the shifted value, `amount_bits` the
    /// width of the shift amount.
    ConstantShiftExceedsWidth { bits: u32, amount_bits: u32 },
    /// A variable shifted right by an amount whose bits, constant, already
    /// reach the width of the shifted value.
    ShiftExceedsWidth { bits: u32, amount_bits: u32 },
    /// A width outside the supported widths was asked for.
    UnsupportedWidth { bits: u32 },
}

/// A named accounting region and the count at which it was entered.
struct Scope {
    name: String,
    start: Count,
}

/// The state of one circuit construction: the variables allocated, by mode
/// (each with its witness value), the constraints recorded, and the open
/// accounting scopes.
pub struct Context {
    constants: Vec<bool>,
    public: Vec<bool>,
    private: Vec<bool>,
    constraints: Vec<Constraint>,
    scopes: Vec<Scope>,
}

/// The count of one variable of mode `mode`.
pub open spec fn unit(mode: Mode) -> Count {
    match mode {
        Mode::Constant => Count { constants: 1, public: 0, private: 0, constraints: 0 },
        Mode::Public => Count { constants: 0, public: 1, private: 0, constraints: 0 },
        Mode::Private => Count { constants: 0, public: 0, private: 1, constraints: 0 },
    }
}

/// The count of `n` variables of mode `mode`.
pub open spec fn units(mode: Mode, n: nat) -> Count {
    match mode {
        Mode::Constant => Count { constants: n as u64, public: 0, private: 0, constraints: 0 },
        Mode::Public => Count { constants: 0, public: n as u64, private: 0, constraints: 0 },
        Mode::Private => Count { constants: 0, public: 0, private: n as u64, constraints: 0 },
    }
}

/// The count of one constraint.
pub open spec fn one_constraint() -> Count {
    Count { constants: 0, public: 0, private: 0, constraints: 1 }
}

/// The count of one private variable and one constraint.
pub open spec fn one_gate() -> Count {
    Count { constants: 0, public: 0, private: 1, constraints: 1 }
}

/// The count of `n` private variables and `n` constraints.
pub open spec fn gates(n: nat) -> Count {
    Count { constants: 0, public: 0, private: n as u64, constraints: n as u64 }
}

/// The count of nothing.
pub open spec fn no_cost() -> Count {
    Count { constants: 0, public: 0, private: 0, constraints: 0 }
}

/// `after` is `before` with every new constraint satisfied by the witness
/// exactly when `holds`, and the same open scopes.
pub open spec fn extended(before: Context, after: Context, holds: bool) -> bool {
    &&& after.satisfied() == (before.satisfied() && holds)
    &&& after.open_scopes() == before.open_scopes()
    &&& before.wf() ==> after.wf()
}

/// `after` is `before` extended with exactly `cost` more recorded.
pub open spec fn advanced(before: Context, after: Context, cost: Count, holds: bool) -> bool {
    &&& is_sum(before.recorded(), cost, after.recorded())
    &&& extended(before, after, holds)
}

/// Advancing twice is advancing once by the sum of the costs.
pub proof fn lemma_advanced_trans(
    a: Context,
    b: Context,
    c: Context,
    cost1: Count,
    cost2: Count,
    cost: Count,
    h1: bool,
    h2: bool,
)
    requires
        advanced(a, b, cost1, h1),
        advanced(b, c, cost2, h2),
        is_sum(cost1, cost2, cost),
    ensures
        advanced(a, c, cost, h1 && h2),
{
}

impl Context {
    /// Every open scope was entered at a count no larger than the current one.
    pub closed spec fn wf(&self) -> bool {
        forall|i: int| 0 <= i < self.scopes@.len() ==> le(#[trigger] self.scopes@[i].start, self.recorded())
    }

    /// What has been recorded since the last reset.
    pub closed spec fn recorded(&self) -> Count {
        Count {
            constants: self.constants.len() as u64,
            public: self.public.len() as u64,
            private: self.private.len() as u64,
            constraints: self.constraints.len() as u64,
        }
    }

    /// Whether the witness satisfies every recorded constraint.
    pub closed spec fn satisfied(&self) -> bool {
        forall|i: int| 0 <= i < self.constraints@.len() ==> #[trigger] self.constraints@[i].holds()
    }

    /// The open scopes, outermost first: each name with the count at which it was entered.
    pub closed spec fn open_scopes(&self) -> Seq<(Seq<char>, Count)> {
        self.scopes@.map_values(|s: Scope| (s.name@, s.start))
    }

    /// A fresh context with nothing recorded.
    pub fn new() -> (r: Context)
        ensures
            r.recorded() == no_cost(),
            r.satisfied(),
            r.open_scopes().len() == 0,
            r.wf(),
    {
        let r = Context {
            constants: Vec::new(),
            public: Vec::new(),
            private: Vec::new(),
            constraints: Vec::new(),
            scopes: Vec::new(),
        };
        assert(r.open_scopes() =~= Seq::empty());
        r
    }

    /// Clears everything recorded, for the next independent construction.
    pub fn reset(&mut self)
        ensures
            final(self).recorded() == no_cost(),
            final(self).satisfied(),
            final(self).open_scopes().len() == 0,
            final(self).wf(),
    {
        *self = Context::new();
    }

    /// Returns what has been recorded since the last reset.
    pub fn count(&self) -> (r: Count)
        ensures
            r == self.recorded(),
    {
        Count {
            constants: self.constants.len() as u64,
            public: self.public.len() as u64,
            private: self.private.len() as u64,
            constraints: self.constraints.len() as u64,
        }
    }

    /// Returns whether the witness satisfies every recorded constraint.
    pub fn is_satisfied(&self) -> (r: bool)
        ensures
            r == self.satisfied(),
    {
        let mut i: usize = 0;
        while i < self.constraints.len()
            invariant
                i <= self.constraints@.len(),
                forall|j: int| 0 <= j < i ==> #[trigger] self.constraints@[j].holds(),
            decreases self.constraints@.len() - i,
        {
            if !self.constraints[i].check() {
                return false;
            }
            i += 1;
        }
        true
    }

    /// Allocates a variable of mode `mode` whose witness is `value`.
    pub(crate) fn allocate(&mut self, mode: Mode, value: bool)
        ensures
            advanced(*old(self), *final(self), unit(mode), true),
    {
        match mode {
            Mode::Constant => self.constants.push(value),
            Mode::Public => self.public.push(value),
            Mode::Private => self.private.push(value),
        }
        assert(self.open_scopes() =~= old(self).open_scopes());
        assert(forall|i: int| 0 <= i < self.constraints@.len() ==> self.constraints@[i] == old(self).constraints@[i]);
        assert(is_sum(old(self).recorded(), unit(mode), self.recorded()));
    }

    /// Records the constraint `c`.
    pub(crate) fn enforce(&mut self, c: Constraint)
        ensures
            advanced(*old(self), *final(self), one_constraint(), c.holds()),
    {
        self.constraints.push(c);
        assert(self.open_scopes() =~= old(self).open_scopes());
        assert(forall|i: int| 0 <= i < old(self).constraints@.len() ==> self.constraints@[i] == old(self).constraints@[i]);
        assert(self.constraints@[old(self).constraints@.len() as int] == c);
    }

    /// Opens the accounting scope `name`, nested in those already open.
    pub fn enter_scope(&mut self, name: String)
        ensures
            final(self).recorded() == old(self).recorded(),
            final(self).satisfied() == old(self).satisfied(),
            final(self).open_scopes() == old(self).open_scopes().push((name@, old(self).recorded())),
            old(self).wf() ==> final(self).wf(),
    {
        let start = self.count();
        self.scopes.push(Scope { name, start });
        assert(self.open_scopes() =~= old(self).open_scopes().push((name@, old(self).recorded())));
    }

    /// Closes the innermost open scope and returns its name with what was
    /// recorded while it was open; `None` where no scope is open.
    pub fn exit_scope(&mut self) -> (r: Option<(String, Count)>)
        requires
            old(self).wf(),
        ensures
            final(self).wf(),
            final(self).recorded() == old(self).recorded(),
            final(self).satisfied() == old(self).satisfied(),
            old(self).open_scopes().len() == 0 ==> r.is_none() && final(self).open_scopes() == old(self).open_scopes(),
            old(self).open_scopes().len() > 0 ==> {
                let top = old(self).open_scopes().last();
                &&& r matches Some((name, delta))
                &&& name@ == top.0
                &&& le(top.1, old(self).recorded())
                &&& delta == difference(old(self).recorded(), top.1)
                &&& final(self).open_scopes() == old(self).open_scopes().drop_last()
            },
    {
        match self.scopes.pop() {
            None => None,
            Some(scope) => {
                let now = self.count();
                proof {
                    let k = old(self).scopes@.len() - 1;
                    assert(old(self).scopes@[k] == scope);
                    assert(self.open_scopes() =~= old(self).open_scopes().drop_last());
                }
                let delta = Count {
                    constants: now.constants - scope.start.constants,
                    public: now.public - scope.start.public,
                    private: now.private - scope.start.private,
                    constraints: now.constraints - scope.start.constraints,
                };
                Some((scope.name, delta))
            },
        }
    }
}

} // verus!
