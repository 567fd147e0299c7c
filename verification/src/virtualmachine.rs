use vstd::prelude::*;
use crate::memoryslice::MemorySlice;
use crate::numbers::{num_add, num_div, num_gt, num_lt, num_mul, num_neg, num_sub};
use crate::numbers::{add_numbers, div_numbers, gt_numbers, lt_numbers, mul_numbers, neg_number, sub_numbers};
use crate::opcodes::{opcode_of_word, spec_opcode_of_word, word_of, OpCode};
use crate::values::{chars_eq, chars_lt, clone_value, render_value, spec_chars_lt, spec_render, val_equal, value_eq, Object, ObjectV, Value, ValueV};

verus! {

/// The outcome of a run.
#[derive(Debug, Clone, Copy, PartialEq, Eq, Structural)]
pub enum InterpretResult {
    InterpretOk,
    InterpretCompileError,
    InterpretRuntimeError,
}

/// The model of a value stack.
pub open spec fn stack_view(s: Seq<Value>) -> Seq<ValueV> {
    s.map_values(|v: Value| v@)
}

/// The model of the return-address stack.
pub open spec fn ips_view(s: Seq<usize>) -> Seq<int> {
    s.map_values(|u: usize| u as int)
}

/// The model of the printed output.
pub open spec fn output_view(s: Seq<Vec<char>>) -> Seq<Seq<char>> {
    s.map_values(|o: Vec<char>| o@)
}

/// One binding of the globals table.
pub struct Binding {
    pub name: Vec<char>,
    pub value: Value,
}

/// The globals table: a name-to-value mapping with pairwise distinct
/// names, kept as a vector of bindings.
pub struct Globals {
    entries: Vec<Binding>,
}

/// The mapping denoted by a sequence of bindings, later entries winning.
pub open spec fn globals_map(s: Seq<Binding>) -> Map<Seq<char>, ValueV>
    decreases s.len(),
{
    if s.len() == 0 {
        Map::empty()
    } else {
        globals_map(s.drop_last()).insert(s.last().name@, s.last().value@)
    }
}

impl View for Globals {
    type V = Map<Seq<char>, ValueV>;

    closed spec fn view(&self) -> Map<Seq<char>, ValueV> {
        globals_map(self.entries@)
    }
}

impl Globals {
    /// Names are pairwise distinct.
    pub closed spec fn wf(&self) -> bool {
        forall|i: int, j: int|
            0 <= i < j < self.entries@.len() ==> (#[trigger] self.entries@[i].name@) != (
            #[trigger] self.entries@[j].name@)
    }

    pub fn new() -> (g: Globals)
        ensures
            g.wf(),
            g@ == Map::<Seq<char>, ValueV>::empty(),
    {
        Globals { entries: Vec::new() }
    }

    /// Look a name up.
    pub fn get(&self, name: &Vec<char>) -> (r: Option<Value>)
        requires
            self.wf(),
        ensures
            self@.contains_key(name@) ==> (r matches Some(v) && v@ == self@[name@]),
            !self@.contains_key(name@) ==> r is None,
    {
        let mut i: usize = 0;
        while i < self.entries.len()
            invariant
                self.wf(),
                i <= self.entries@.len(),
                forall|k: int| 0 <= k < i ==> (#[trigger] self.entries@[k].name@) != name@,
            decreases self.entries@.len() - i,
        {
            if chars_eq(&self.entries[i].name, name) {
                proof {
                    lemma_globals_map_index(self.entries@, i as int);
                }
                return Some(clone_value(&self.entries[i].value));
            }
            i += 1;
        }
        proof {
            lemma_globals_map_absent(self.entries@, name@);
        }
        None
    }

    /// Bind a name, replacing any previous binding.
    pub fn insert(&mut self, name: Vec<char>, v: Value)
        requires
            old(self).wf(),
        ensures
            final(self).wf(),
            final(self)@ == old(self)@.insert(name@, v@),
    {
        let mut i: usize = 0;
        while i < self.entries.len()
            invariant
                self.wf(),
                i <= self.entries@.len(),
                self.entries@ == old(self).entries@,
                forall|k: int| 0 <= k < i ==> (#[trigger] self.entries@[k].name@) != name@,
            decreases self.entries@.len() - i,
        {
            if chars_eq(&self.entries[i].name, &name) {
                self.entries.set(i, Binding { name, value: v });
                proof {
                    lemma_globals_map_update(old(self).entries@, i as int, self.entries@[i as int]);
                    assert(self@ =~= old(self)@.insert(self.entries@[i as int].name@, v@));
                }
                return ;
            }
            i += 1;
        }
        self.entries.push(Binding { name, value: v });
        proof {
            assert(self.entries@.drop_last() =~= old(self).entries@);
        }
    }
}

/// The entry at a distinct-name index `i` is in the mapping.
proof fn lemma_globals_map_index(s: Seq<Binding>, i: int)
    requires
        0 <= i < s.len(),
        forall|a: int, b: int|
            0 <= a < b < s.len() ==> (#[trigger] s[a].name@) != (#[trigger] s[b].name@),
    ensures
        globals_map(s).contains_key(s[i].name@),
        globals_map(s)[s[i].name@] == s[i].value@,
    decreases s.len(),
{
    if i == s.len() - 1 {
    } else {
        lemma_globals_map_index(s.drop_last(), i);
        assert(s.drop_last()[i] == s[i]);
        assert(s.last().name@ != s[i].name@);
    }
}

/// A name that no entry carries is not in the mapping.
proof fn lemma_globals_map_absent(s: Seq<Binding>, name: Seq<char>)
    requires
        forall|k: int| 0 <= k < s.len() ==> (#[trigger] s[k].name@) != name,
    ensures
        !globals_map(s).contains_key(name),
    decreases s.len(),
{
    if s.len() > 0 {
        lemma_globals_map_absent(s.drop_last(), name);
    }
}

/// Replacing the entry that holds a name rebinds exactly that name.
proof fn lemma_globals_map_update(s: Seq<Binding>, i: int, pair: Binding)
    requires
        0 <= i < s.len(),
        forall|a: int, b: int|
            0 <= a < b < s.len() ==> (#[trigger] s[a].name@) != (#[trigger] s[b].name@),
        pair.name@ == s[i].name@,
    ensures
        globals_map(s.update(i, pair)) == globals_map(s).insert(pair.name@, pair.value@),
    decreases s.len(),
{
    let t = s.update(i, pair);
    if i == s.len() - 1 {
        assert(t.drop_last() =~= s.drop_last());
        assert(globals_map(t) =~= globals_map(s).insert(pair.name@, pair.value@));
    } else {
        assert(t.drop_last() =~= s.drop_last().update(i, pair));
        assert(s.drop_last()[i] == s[i]);
        lemma_globals_map_update(s.drop_last(), i, pair);
        assert(t.last() == s.last());
        assert(s.last().name@ != pair.name@);
        assert(globals_map(t) =~= globals_map(s).insert(pair.name@, pair.value@));
    }
}

/// The machine's whole state, apart from the chunk it runs.  `sp` is
/// the base of the active frame's window of the value stack: local slot
/// `k` lives at absolute index `sp + k`.  A call saves the caller's base
/// on `sp_stack` beside its return address on `ip_stack`.
pub struct MachineState {
    pub ip: int,
    pub stack: Seq<ValueV>,
    pub globals: Map<Seq<char>, ValueV>,
    pub ip_stack: Seq<int>,
    pub sp_stack: Seq<int>,
    pub sp: int,
    pub temp: ValueV,
    pub output: Seq<Seq<char>>,
}

/// What one machine step does: continue in a new state, halt cleanly, or
/// abort with a runtime error.
pub enum StepR {
    Next(MachineState),
    Halt,
    Abort,
}

/// `Not`: booleans flip, `nil` becomes `true`, all else is an error.
pub open spec fn not_value(v: ValueV) -> Option<ValueV> {
    match v {
        ValueV::Bool(b) => Some(ValueV::Bool(!b)),
        ValueV::Nil => Some(ValueV::Bool(true)),
        _ => None,
    }
}

/// `Add`: numbers add, strings concatenate, all else is an error.
pub open spec fn add_values(a: ValueV, b: ValueV) -> Option<ValueV> {
    match (a, b) {
        (ValueV::Number(x), ValueV::Number(y)) => Some(ValueV::Number(num_add(x, y))),
        (ValueV::Object(ObjectV::String(x)), ValueV::Object(ObjectV::String(y))) => Some(
            ValueV::Object(ObjectV::String(x + y)),
        ),
        _ => None,
    }
}

/// `Subtract`: defined for numbers only.
pub open spec fn sub_values(a: ValueV, b: ValueV) -> Option<ValueV> {
    match (a, b) {
        (ValueV::Number(x), ValueV::Number(y)) => Some(ValueV::Number(num_sub(x, y))),
        _ => None,
    }
}

/// `Multiply`: defined for numbers only.
pub open spec fn mul_values(a: ValueV, b: ValueV) -> Option<ValueV> {
    match (a, b) {
        (ValueV::Number(x), ValueV::Number(y)) => Some(ValueV::Number(num_mul(x, y))),
        _ => None,
    }
}

/// `Divide`: defined for numbers only.
pub open spec fn div_values(a: ValueV, b: ValueV) -> Option<ValueV> {
    match (a, b) {
        (ValueV::Number(x), ValueV::Number(y)) => Some(ValueV::Number(num_div(x, y))),
        _ => None,
    }
}

/// `Greater`: numbers by IEEE order, strings lexicographically.
pub open spec fn greater_values(a: ValueV, b: ValueV) -> Option<bool> {
    match (a, b) {
        (ValueV::Number(x), ValueV::Number(y)) => Some(num_gt(x, y)),
        (ValueV::Object(ObjectV::String(x)), ValueV::Object(ObjectV::String(y))) => Some(
            spec_chars_lt(y, x),
        ),
        _ => None,
    }
}

/// `Less`: numbers by IEEE order, strings lexicographically.
pub open spec fn less_values(a: ValueV, b: ValueV) -> Option<bool> {
    match (a, b) {
        (ValueV::Number(x), ValueV::Number(y)) => Some(num_lt(x, y)),
        (ValueV::Object(ObjectV::String(x)), ValueV::Object(ObjectV::String(y))) => Some(
            spec_chars_lt(x, y),
        ),
        _ => None,
    }
}

/// The operand word that follows the opcode at `s.ip`, if it exists.
pub open spec fn operand_at(code: Seq<u16>, p: int) -> Option<u16> {
    if 0 <= p + 1 < code.len() {
        Some(code[p + 1])
    } else {
        None
    }
}

/// One step of the machine on `code` with constant pool `consts`.
///
/// Every condition that the executable machine reports as a runtime
/// error is an `Abort` here: an instruction pointer out of range, an
/// unknown opcode, a missing operand, a constant id out of range, a type
/// error, an undefined global, a bad local slot, a jump out of range, a
/// call of a non-function or with the wrong arity, a return with no
/// caller, and the `Panic` placeholder.
pub open spec fn step(code: Seq<u16>, consts: Seq<ValueV>, s: MachineState) -> StepR {
    let p = s.ip;
    if !(0 <= p < code.len()) {
        StepR::Abort
    } else {
        match spec_opcode_of_word(code[p]) {
            None => StepR::Abort,
            Some(op) => match op {
                OpCode::Constant => match operand_at(code, p) {
                    None => StepR::Abort,
                    Some(cid) => if cid < consts.len() {
                        StepR::Next(
                            MachineState {
                                ip: p + 2,
                                stack: s.stack.push(consts[cid as int]),
                                ..s
                            },
                        )
                    } else {
                        StepR::Abort
                    },
                },
                OpCode::Negate => if s.stack.len() == 0 {
                    StepR::Abort
                } else {
                    match s.stack.last() {
                        ValueV::Number(x) => StepR::Next(
                            MachineState {
                                ip: p + 1,
                                stack: s.stack.drop_last().push(ValueV::Number(num_neg(x))),
                                ..s
                            },
                        ),
                        _ => StepR::Abort,
                    }
                },
                OpCode::Add => step_binary(code, consts, s, add_values(second_last(s.stack), last_of(s.stack))),
                OpCode::Subtract => step_binary(code, consts, s, sub_values(second_last(s.stack), last_of(s.stack))),
                OpCode::Multiply => step_binary(code, consts, s, mul_values(second_last(s.stack), last_of(s.stack))),
                OpCode::Divide => step_binary(code, consts, s, div_values(second_last(s.stack), last_of(s.stack))),
                OpCode::Nil => StepR::Next(
                    MachineState { ip: p + 1, stack: s.stack.push(ValueV::Nil), ..s },
                ),
                OpCode::True => StepR::Next(
                    MachineState { ip: p + 1, stack: s.stack.push(ValueV::Bool(true)), ..s },
                ),
                OpCode::False => StepR::Next(
                    MachineState { ip: p + 1, stack: s.stack.push(ValueV::Bool(false)), ..s },
                ),
                OpCode::Not => if s.stack.len() == 0 {
                    StepR::Abort
                } else {
                    match not_value(s.stack.last()) {
                        Some(v) => StepR::Next(
                            MachineState { ip: p + 1, stack: s.stack.drop_last().push(v), ..s },
                        ),
                        None => StepR::Abort,
                    }
                },
                OpCode::Equal => if s.stack.len() < 2 {
                    StepR::Abort
                } else {
                    StepR::Next(
                        MachineState {
                            ip: p + 1,
                            stack: s.stack.drop_last().drop_last().push(
                                ValueV::Bool(val_equal(second_last(s.stack), last_of(s.stack))),
                            ),
                            ..s
                        },
                    )
                },
                OpCode::Greater => if s.stack.len() < 2 {
                    StepR::Abort
                } else {
                    match greater_values(second_last(s.stack), last_of(s.stack)) {
                        Some(b) => StepR::Next(
                            MachineState {
                                ip: p + 1,
                                stack: s.stack.drop_last().drop_last().push(ValueV::Bool(b)),
                                ..s
                            },
                        ),
                        None => StepR::Abort,
                    }
                },
                OpCode::Less => if s.stack.len() < 2 {
                    StepR::Abort
                } else {
                    match less_values(second_last(s.stack), last_of(s.stack)) {
                        Some(b) => StepR::Next(
                            MachineState {
                                ip: p + 1,
                                stack: s.stack.drop_last().drop_last().push(ValueV::Bool(b)),
                                ..s
                            },
                        ),
                        None => StepR::Abort,
                    }
                },
                OpCode::Print => if s.stack.len() == 0 {
                    StepR::Abort
                } else {
                    StepR::Next(
                        MachineState {
                            ip: p + 1,
                            stack: s.stack.drop_last(),
                            output: s.output.push(spec_render(s.stack.last())),
                            ..s
                        },
                    )
                },
                OpCode::Pop => StepR::Next(
                    MachineState {
                        ip: p + 1,
                        stack: if s.stack.len() == 0 {
                            s.stack
                        } else {
                            s.stack.drop_last()
                        },
                        ..s
                    },
                ),
                OpCode::SetSP => StepR::Next(
                    MachineState { ip: p + 1, sp: s.stack.len() as int, ..s },
                ),
                OpCode::DefineGlobalVar => match global_name_at(code, consts, p) {
                    None => StepR::Abort,
                    Some(name) => if s.stack.len() == 0 {
                        StepR::Abort
                    } else {
                        StepR::Next(
                            MachineState {
                                ip: p + 2,
                                stack: s.stack.drop_last(),
                                globals: s.globals.insert(name, s.stack.last()),
                                ..s
                            },
                        )
                    },
                },
                OpCode::GetGlobalVar => match global_name_at(code, consts, p) {
                    None => StepR::Abort,
                    Some(name) => if s.globals.contains_key(name) {
                        StepR::Next(
                            MachineState { ip: p + 2, stack: s.stack.push(s.globals[name]), ..s },
                        )
                    } else {
                        StepR::Abort
                    },
                },
                OpCode::SetGlobalVar => match global_name_at(code, consts, p) {
                    None => StepR::Abort,
                    Some(name) => if !s.globals.contains_key(name) || s.stack.len() == 0 {
                        StepR::Abort
                    } else {
                        StepR::Next(
                            MachineState {
                                ip: p + 2,
                                globals: s.globals.insert(name, s.stack.last()),
                                ..s
                            },
                        )
                    },
                },
                OpCode::GetLocalVar => match local_slot_at(code, consts, p) {
                    None => StepR::Abort,
                    Some(slot) => if 0 <= s.sp && s.sp + slot < s.stack.len() {
                        StepR::Next(
                            MachineState {
                                ip: p + 2,
                                stack: s.stack.push(s.stack[s.sp + slot]),
                                ..s
                            },
                        )
                    } else {
                        StepR::Abort
                    },
                },
                OpCode::SetLocalVar => match local_slot_at(code, consts, p) {
                    None => StepR::Abort,
                    Some(slot) => if 0 <= s.sp && s.sp + slot < s.stack.len() && s.stack.len()
                        > 0 {
                        StepR::Next(
                            MachineState {
                                ip: p + 2,
                                stack: s.stack.update(s.sp + slot, s.stack.last()),
                                ..s
                            },
                        )
                    } else {
                        StepR::Abort
                    },
                },
                OpCode::JmpFalse => match operand_at(code, p) {
                    None => StepR::Abort,
                    Some(n) => if s.stack.len() == 0 {
                        StepR::Abort
                    } else {
                        match s.stack.last() {
                            ValueV::Bool(b) => if !b {
                                if p + 2 + n <= code.len() {
                                    StepR::Next(MachineState { ip: p + 2 + n, ..s })
                                } else {
                                    StepR::Abort
                                }
                            } else {
                                StepR::Next(MachineState { ip: p + 2, ..s })
                            },
                            _ => StepR::Abort,
                        }
                    },
                },
                OpCode::JmpTrue => match operand_at(code, p) {
                    None => StepR::Abort,
                    Some(n) => if s.stack.len() == 0 {
                        StepR::Abort
                    } else {
                        match s.stack.last() {
                            ValueV::Bool(b) => if b {
                                if p + 2 + n <= code.len() {
                                    StepR::Next(MachineState { ip: p + 2 + n, ..s })
                                } else {
                                    StepR::Abort
                                }
                            } else {
                                StepR::Next(MachineState { ip: p + 2, ..s })
                            },
                            _ => StepR::Abort,
                        }
                    },
                },
                OpCode::Jmp => match operand_at(code, p) {
                    None => StepR::Abort,
                    Some(n) => if p + 2 + n <= code.len() {
                        StepR::Next(MachineState { ip: p + 2 + n, ..s })
                    } else {
                        StepR::Abort
                    },
                },
                OpCode::Loop => match operand_at(code, p) {
                    None => StepR::Abort,
                    Some(n) => if p + 2 - n >= 0 {
                        StepR::Next(MachineState { ip: p + 2 - n, ..s })
                    } else {
                        StepR::Abort
                    },
                },
                OpCode::PopStoreTmp => if s.stack.len() == 0 {
                    StepR::Abort
                } else {
                    StepR::Next(
                        MachineState {
                            ip: p + 1,
                            stack: s.stack.drop_last(),
                            temp: s.stack.last(),
                            ..s
                        },
                    )
                },
                OpCode::Call => match operand_at(code, p) {
                    None => StepR::Abort,
                    Some(argc) => match s.temp {
                        ValueV::Object(ObjectV::Function { name: _, address, arity }) => if arity
                            == argc as int && argc as int <= s.stack.len() {
                            StepR::Next(
                                MachineState {
                                    ip: address,
                                    ip_stack: s.ip_stack.push(p + 2),
                                    sp_stack: s.sp_stack.push(s.sp),
                                    sp: s.stack.len() - argc as int,
                                    ..s
                                },
                            )
                        } else {
                            StepR::Abort
                        },
                        _ => StepR::Abort,
                    },
                },
                OpCode::Return => if s.ip_stack.len() == 0 || s.sp_stack.len() == 0 {
                    StepR::Abort
                } else {
                    StepR::Next(
                        MachineState {
                            ip: s.ip_stack.last(),
                            ip_stack: s.ip_stack.drop_last(),
                            sp: s.sp_stack.last(),
                            sp_stack: s.sp_stack.drop_last(),
                            stack: s.stack.push(s.temp),
                            temp: ValueV::Nil,
                            ..s
                        },
                    )
                },
                OpCode::Eof => StepR::Halt,
                OpCode::Panic => StepR::Abort,
            },
        }
    }
}

/// The last stack entry (meaningful only on a nonempty stack).
pub open spec fn last_of(st: Seq<ValueV>) -> ValueV {
    st[st.len() - 1]
}

/// The entry below the last one (meaningful only with two entries).
pub open spec fn second_last(st: Seq<ValueV>) -> ValueV {
    st[st.len() - 2]
}

/// A binary operator step: pop two operands, push the result, or abort
/// on a type error.
pub open spec fn step_binary(
    code: Seq<u16>,
    consts: Seq<ValueV>,
    s: MachineState,
    r: Option<ValueV>,
) -> StepR {
    if s.stack.len() < 2 {
        StepR::Abort
    } else {
        match r {
            Some(v) => StepR::Next(
                MachineState { ip: s.ip + 1, stack: s.stack.drop_last().drop_last().push(v), ..s },
            ),
            None => StepR::Abort,
        }
    }
}

/// The global name that the operand of the opcode at `p` references:
/// defined when the operand exists, is in range for the pool, and names
/// a string constant.
pub open spec fn global_name_at(code: Seq<u16>, consts: Seq<ValueV>, p: int) -> Option<
    Seq<char>,
> {
    match operand_at(code, p) {
        None => None,
        Some(cid) => if cid < consts.len() {
            match consts[cid as int] {
                ValueV::Object(ObjectV::String(name)) => Some(name),
                _ => None,
            }
        } else {
            None
        },
    }
}

/// The local slot index that the operand of the opcode at `p`
/// references: defined when the operand exists, is in range for the
/// pool, and holds a number constant.  The slot index is carried in the
/// number's payload.
pub open spec fn local_slot_at(code: Seq<u16>, consts: Seq<ValueV>, p: int) -> Option<int> {
    match operand_at(code, p) {
        None => None,
        Some(cid) => if cid < consts.len() {
            match consts[cid as int] {
                ValueV::Number(x) => Some(x as int),
                _ => None,
            }
        } else {
            None
        },
    }
}

/// `s1` is reached from `s0` in exactly `n` steps.
pub open spec fn reaches(
    code: Seq<u16>,
    consts: Seq<ValueV>,
    s0: MachineState,
    s1: MachineState,
    n: nat,
) -> bool
    decreases n,
{
    if n == 0 {
        s0 == s1
    } else {
        exists|mid: MachineState|
            #[trigger] step(code, consts, s0) == StepR::Next(mid) && reaches(
                code,
                consts,
                mid,
                s1,
                (n - 1) as nat,
            )
    }
}

/// A reachable state followed by one more step is reachable.
pub proof fn lemma_reaches_snoc(
    code: Seq<u16>,
    consts: Seq<ValueV>,
    s0: MachineState,
    s1: MachineState,
    s2: MachineState,
    n: nat,
)
    requires
        reaches(code, consts, s0, s1, n),
        step(code, consts, s1) == StepR::Next(s2),
    ensures
        reaches(code, consts, s0, s2, n + 1),
    decreases n,
{
    if n == 0 {
        assert(reaches(code, consts, s2, s2, 0));
    } else {
        let mid = choose|mid: MachineState|
            #[trigger] step(code, consts, s0) == StepR::Next(mid) && reaches(
                code,
                consts,
                mid,
                s1,
                (n - 1) as nat,
            );
        lemma_reaches_snoc(code, consts, mid, s1, s2, (n - 1) as nat);
    }
}

/// Double negation is the identity on booleans, and `!nil` is `true`:
/// `Not` maps `Bool(b)` to `Bool(!b)`, so applying it twice restores
/// `b`, and it maps `Nil` to `Bool(true)`.
pub proof fn lemma_not_involution(b: bool)
    ensures
        not_value(ValueV::Bool(b)) == Some(ValueV::Bool(!b)),
        not_value(ValueV::Bool(!b)) == Some(ValueV::Bool(b)),
        not_value(ValueV::Nil) == Some(ValueV::Bool(true)),
{
}

/// The `Equal` instruction's truth is by variant and payload: `a == b`
/// holds exactly when the two values carry the same variant and equal
/// payload — numbers as IEEE-754 doubles, all else structurally.
pub proof fn lemma_equality_by_payload(a: ValueV, b: ValueV)
    ensures
        val_equal(a, b) <==> (match (a, b) {
            (ValueV::Number(x), ValueV::Number(y)) => crate::numbers::num_eq(x, y),
            (ValueV::Nil, ValueV::Nil) => true,
            (ValueV::Raw, ValueV::Raw) => true,
            (ValueV::Bool(x), ValueV::Bool(y)) => x == y,
            (ValueV::Object(ObjectV::String(x)), ValueV::Object(ObjectV::String(y))) => x == y,
            (
                ValueV::Object(ObjectV::Function { name: n1, address: a1, arity: r1 }),
                ValueV::Object(ObjectV::Function { name: n2, address: a2, arity: r2 }),
            ) => n1 == n2 && a1 == a2 && r1 == r2,
            _ => false,
        }),
{
}

/// Adding two strings concatenates them.
pub proof fn lemma_add_strings(x: Seq<char>, y: Seq<char>)
    ensures
        add_values(ValueV::Object(ObjectV::String(x)), ValueV::Object(ObjectV::String(y))) == Some(
            ValueV::Object(ObjectV::String(x + y)),
        ),
{
}

/// Short circuit for `and`: with `false` on top of the stack, a
/// `JmpFalse` moves the instruction pointer past the jumped-over code in
/// one step, and the stack, the globals, the call stack, the register
/// and the output are all untouched — nothing of the right operand runs.
pub proof fn lemma_jmp_false_skips(code: Seq<u16>, consts: Seq<ValueV>, s: MachineState, n: u16)
    requires
        0 <= s.ip,
        s.ip + 1 < code.len(),
        code[s.ip] == word_of(OpCode::JmpFalse),
        code[s.ip + 1] == n,
        s.stack.len() > 0,
        s.stack.last() == ValueV::Bool(false),
        s.ip + 2 + n <= code.len(),
    ensures
        step(code, consts, s) == StepR::Next(MachineState { ip: s.ip + 2 + n, ..s }),
{
    crate::opcodes::lemma_opcode_word_roundtrip(OpCode::JmpFalse);
}

/// Short circuit for `or`: with `true` on top of the stack, a `JmpTrue`
/// likewise skips the jumped-over code in one step and touches nothing
/// else.
pub proof fn lemma_jmp_true_skips(code: Seq<u16>, consts: Seq<ValueV>, s: MachineState, n: u16)
    requires
        0 <= s.ip,
        s.ip + 1 < code.len(),
        code[s.ip] == word_of(OpCode::JmpTrue),
        code[s.ip + 1] == n,
        s.stack.len() > 0,
        s.stack.last() == ValueV::Bool(true),
        s.ip + 2 + n <= code.len(),
    ensures
        step(code, consts, s) == StepR::Next(MachineState { ip: s.ip + 2 + n, ..s }),
{
    crate::opcodes::lemma_opcode_word_roundtrip(OpCode::JmpTrue);
}

/// Assigning a global that was never defined is a runtime error: a
/// `SetGlobalVar` whose name is not bound aborts the machine.
pub proof fn lemma_set_undefined_global_aborts(
    code: Seq<u16>,
    consts: Seq<ValueV>,
    s: MachineState,
    name: Seq<char>,
)
    requires
        0 <= s.ip < code.len(),
        code[s.ip] == word_of(OpCode::SetGlobalVar),
        global_name_at(code, consts, s.ip) == Some(name),
        !s.globals.contains_key(name),
    ensures
        step(code, consts, s) == StepR::Abort,
{
    crate::opcodes::lemma_opcode_word_roundtrip(OpCode::SetGlobalVar);
}

/// The stack-based virtual machine.
pub struct VM {
    pub ip: usize,
    pub stack: Vec<Value>,
    pub globals: Globals,
    pub ip_stack: Vec<usize>,
    pub sp_stack: Vec<usize>,
    pub sp: usize,
    pub temp_val: Value,
    pub output: Vec<Vec<char>>,
}

impl View for VM {
    type V = MachineState;

    open spec fn view(&self) -> MachineState {
        MachineState {
            ip: self.ip as int,
            stack: stack_view(self.stack@),
            globals: self.globals@,
            ip_stack: ips_view(self.ip_stack@),
            sp_stack: ips_view(self.sp_stack@),
            sp: self.sp as int,
            temp: self.temp_val@,
            output: output_view(self.output@),
        }
    }
}

impl VM {
    /// The globals table keeps its well-formedness.
    pub open spec fn wf(&self) -> bool {
        self.globals.wf()
    }

    /// A fresh machine: empty stacks, no globals, instruction pointer at
    /// the start.
    pub fn new() -> (vm: VM)
        ensures
            vm.wf(),
            vm@ == (MachineState {
                ip: 0,
                stack: Seq::<ValueV>::empty(),
                globals: Map::<Seq<char>, ValueV>::empty(),
                ip_stack: Seq::<int>::empty(),
                sp_stack: Seq::<int>::empty(),
                sp: 0,
                temp: ValueV::Nil,
                output: Seq::<Seq<char>>::empty(),
            }),
    {
        let vm = VM {
            ip: 0,
            stack: Vec::new(),
            globals: Globals::new(),
            ip_stack: Vec::new(),
            sp_stack: Vec::new(),
            sp: 0,
            temp_val: Value::Nil,
            output: Vec::new(),
        };
        proof {
            assert(vm@.stack =~= Seq::<ValueV>::empty());
            assert(vm@.ip_stack =~= Seq::<int>::empty());
            assert(vm@.sp_stack =~= Seq::<int>::empty());
            assert(vm@.output =~= Seq::<Seq<char>>::empty());
        }
        vm
    }

    /// One line of the stack dump for each value from position `i` on.
    pub open spec fn dump_stack_lines(stack: Seq<ValueV>, i: int) -> Seq<char>
        decreases stack.len() - i,
    {
        if i < 0 || i >= stack.len() {
            Seq::empty()
        } else {
            crate::values::dec_digits(i) + seq![' ', '-', '-', ' '] + spec_render(stack[i]) + seq![
                '\n',
            ] + Self::dump_stack_lines(stack, i + 1)
        }
    }

    /// A plain-text dump of the machine for inspection: the instruction
    /// pointer, the frame base, and every value on the stack with its
    /// index.
    pub fn debug(&self) -> (r: Vec<char>)
        ensures
            r@ == seq!['i', 'p', ' '] + crate::values::dec_digits(self.ip as int) + seq![
                '\n',
                's',
                'p',
                ' ',
            ] + crate::values::dec_digits(self.sp as int) + seq!['\n'] + Self::dump_stack_lines(
                self@.stack,
                0,
            ),
    {
        let mut out: Vec<char> = Vec::new();
        out.push('i');
        out.push('p');
        out.push(' ');
        let mut ip_text = crate::values::dec_text(self.ip);
        out.append(&mut ip_text);
        out.push('\n');
        out.push('s');
        out.push('p');
        out.push(' ');
        let mut sp_text = crate::values::dec_text(self.sp);
        out.append(&mut sp_text);
        out.push('\n');
        let ghost header = seq!['i', 'p', ' '] + crate::values::dec_digits(self.ip as int) + seq![
            '\n',
            's',
            'p',
            ' ',
        ] + crate::values::dec_digits(self.sp as int) + seq!['\n'];
        proof {
            assert(out@ =~= header);
        }
        let mut i: usize = 0;
        while i < self.stack.len()
            invariant
                i <= self.stack@.len(),
                out@ + Self::dump_stack_lines(self@.stack, i as int) =~= header
                    + Self::dump_stack_lines(self@.stack, 0),
            decreases self.stack@.len() - i,
        {
            let ghost before = out@;
            let mut idx = crate::values::dec_text(i);
            out.append(&mut idx);
            out.push(' ');
            out.push('-');
            out.push('-');
            out.push(' ');
            let mut text = render_value(&self.stack[i]);
            out.append(&mut text);
            out.push('\n');
            proof {
                assert(out@ =~= before + crate::values::dec_digits(i as int) + seq![
                    ' ',
                    '-',
                    '-',
                    ' ',
                ] + spec_render(self@.stack[i as int]) + seq!['\n']);
                assert(out@ + Self::dump_stack_lines(self@.stack, i + 1) =~= before
                    + Self::dump_stack_lines(self@.stack, i as int));
            }
            i += 1;
        }
        proof {
            assert(out@ =~= header + Self::dump_stack_lines(self@.stack, 0));
        }
        out
    }

    /// Read the constant referenced by the operand of the opcode under
    /// the instruction pointer.
    fn get_operand_constant(&self, memory: &MemorySlice) -> (r: Option<Value>)
        requires
            (self.ip as int) < memory.code().len(),
        ensures
            r matches Some(v) ==> (operand_at(memory.code(), self.ip as int) matches Some(cid)
                && (cid as int) < memory.consts().len() && v@ == memory.consts()[cid as int]),
            r is None ==> (operand_at(memory.code(), self.ip as int) is None || (operand_at(
                memory.code(),
                self.ip as int,
            ) matches Some(cid) && (cid as int) >= memory.consts().len())),
    {
        let sz = memory.get_memory_size();
        let w2 = match memory.read_at_ip(self.ip + 1) {
            Some(w2) => w2,
            None => {
                return None;
            },
        };
        memory.get_constant(w2)
    }

    /// Read the operand constant and require it to name a global: a
    /// string from the pool.
    fn get_operand_global_name(&self, memory: &MemorySlice) -> (r: Option<Vec<char>>)
        requires
            (self.ip as int) < memory.code().len(),
        ensures
            r matches Some(name) ==> global_name_at(memory.code(), memory.consts(), self.ip as int)
                == Some(name@),
            r is None ==> global_name_at(memory.code(), memory.consts(), self.ip as int) is None,
    {
        match self.get_operand_constant(memory) {
            Some(Value::Object(Object::String(name))) => Some(name),
            Some(_) => None,
            None => None,
        }
    }

    /// Read the operand constant and require it to carry a local slot
    /// index: a number from the pool.
    fn get_operand_slot(&self, memory: &MemorySlice) -> (r: Option<u64>)
        requires
            (self.ip as int) < memory.code().len(),
        ensures
            r matches Some(x) ==> local_slot_at(memory.code(), memory.consts(), self.ip as int)
                == Some(x as int),
            r is None ==> local_slot_at(memory.code(), memory.consts(), self.ip as int) is None,
    {
        match self.get_operand_constant(memory) {
            Some(Value::Number(x)) => Some(x),
            Some(_) => None,
            None => None,
        }
    }

    /// One arithmetic instruction: pop two operands, push the result.
    /// Numbers combine by IEEE-754 arithmetic; `Add` also concatenates
    /// two strings; anything else reports a type error.
    fn binary_op(&mut self, memory: &MemorySlice, op: OpCode) -> (ok: bool)
        requires
            old(self).wf(),
            op == OpCode::Add || op == OpCode::Subtract || op == OpCode::Multiply || op
                == OpCode::Divide,
            (old(self).ip as int) < memory.code().len(),
            spec_opcode_of_word(memory.code()[old(self).ip as int]) == Some(op),
        ensures
            final(self).wf(),
            ok ==> step(memory.code(), memory.consts(), old(self)@) == StepR::Next(final(self)@),
            !ok ==> final(self)@ == old(self)@ && step(memory.code(), memory.consts(), old(self)@)
                == StepR::Abort,
    {
        let n = self.stack.len();
        if n < 2 {
            return false;
        }
        let result: Option<Value> = match (&self.stack[n - 2], &self.stack[n - 1]) {
            (Value::Number(x), Value::Number(y)) => match op {
                OpCode::Add => Some(Value::Number(add_numbers(*x, *y))),
                OpCode::Subtract => Some(Value::Number(sub_numbers(*x, *y))),
                OpCode::Multiply => Some(Value::Number(mul_numbers(*x, *y))),
                _ => Some(Value::Number(div_numbers(*x, *y))),
            },
            (Value::Object(Object::String(x)), Value::Object(Object::String(y))) => match op {
                OpCode::Add => {
                    let mut joined = x.clone();
                    let mut rest = y.clone();
                    joined.append(&mut rest);
                    Some(Value::Object(Object::String(joined)))
                },
                _ => None,
            },
            _ => None,
        };
        match result {
            Some(v) => {
                self.stack.pop();
                self.stack.pop();
                self.stack.push(v);
                let sz = memory.get_memory_size();
                self.ip = self.ip + 1;
                proof {
                    assert(stack_view(self.stack@) =~= old(self)@.stack.drop_last().drop_last().push(
                        v@,
                    ));
                    assert(step(memory.code(), memory.consts(), old(self)@) == StepR::Next(
                        self@,
                    ));
                }
                true
            },
            None => {
                proof {
                    assert(step(memory.code(), memory.consts(), old(self)@) == StepR::Abort);
                }
                false
            },
        }
    }

    /// Run the chunk until it halts at `Eof`, aborts with a runtime
    /// error, or exhausts the step budget.  The run follows the step
    /// relation: the final state is reachable from the initial one in
    /// exactly `n` steps, and the result says whether that state halts,
    /// aborts, or merely ran out of budget.
    pub fn run_steps(&mut self, memory: &MemorySlice, fuel: u64) -> (r: Option<InterpretResult>)
        requires
            old(self).wf(),
        ensures
            final(self).wf(),
            exists|n: nat|
                {
                    &&& #[trigger] reaches(memory.code(), memory.consts(), old(self)@, final(self)@, n)
                    &&& n <= fuel
                    &&& (r is None ==> n == fuel)
                },
            r == Some(InterpretResult::InterpretOk) ==> step(
                memory.code(),
                memory.consts(),
                final(self)@,
            ) == StepR::Halt,
            r == Some(InterpretResult::InterpretRuntimeError) ==> step(
                memory.code(),
                memory.consts(),
                final(self)@,
            ) == StepR::Abort,
            r is None || r == Some(InterpretResult::InterpretOk) || r == Some(
                InterpretResult::InterpretRuntimeError,
            ),
    {
        let ghost code = memory.code();
        let ghost consts = memory.consts();
        let ghost s0 = old(self)@;
        let mut left: u64 = fuel;
        let ghost mut taken: nat = 0nat;
        proof {
            assert(reaches(code, consts, s0, s0, 0));
        }
        while left > 0
            invariant
                self.wf(),
                reaches(code, consts, s0, self@, taken),
                taken + left == fuel,
                s0 == old(self)@,
                code == memory.code(),
                consts == memory.consts(),
            decreases left,
        {
            left = left - 1;
            let ghost pre = self@;
            let w = match memory.read_at_ip(self.ip) {
                Some(w) => w,
                None => {
                    proof {
                        assert(step(code, consts, self@) == StepR::Abort);
                    }
                    return Some(InterpretResult::InterpretRuntimeError);
                },
            };
            let opcode = match opcode_of_word(w) {
                Some(op) => op,
                None => {
                    proof {
                        assert(step(code, consts, self@) == StepR::Abort);
                    }
                    return Some(InterpretResult::InterpretRuntimeError);
                },
            };
            let csize = memory.get_memory_size();
            match opcode {
                OpCode::Nil => {
                    self.stack.push(Value::Nil);
                    self.ip = self.ip + 1;
                    proof {
                        assert(stack_view(self.stack@) =~= pre.stack.push(ValueV::Nil));
                        assert(step(code, consts, pre) == StepR::Next(self@));
                    }
                },
                OpCode::True => {
                    self.stack.push(Value::Bool(true));
                    self.ip = self.ip + 1;
                    proof {
                        assert(stack_view(self.stack@) =~= pre.stack.push(ValueV::Bool(true)));
                        assert(step(code, consts, pre) == StepR::Next(self@));
                    }
                },
                OpCode::False => {
                    self.stack.push(Value::Bool(false));
                    self.ip = self.ip + 1;
                    proof {
                        assert(stack_view(self.stack@) =~= pre.stack.push(ValueV::Bool(false)));
                        assert(step(code, consts, pre) == StepR::Next(self@));
                    }
                },
                OpCode::Pop => {
                    self.stack.pop();
                    self.ip = self.ip + 1;
                    proof {
                        if pre.stack.len() == 0 {
                            assert(stack_view(self.stack@) =~= pre.stack);
                        } else {
                            assert(stack_view(self.stack@) =~= pre.stack.drop_last());
                        }
                        assert(step(code, consts, pre) == StepR::Next(self@));
                    }
                },
                OpCode::Eof => {
                    return Some(InterpretResult::InterpretOk);
                },
                OpCode::Constant => {
                    let v = match self.get_operand_constant(memory) {
                        Some(v) => v,
                        None => {
                            proof {
                                assert(step(code, consts, self@) == StepR::Abort);
                            }
                            return Some(InterpretResult::InterpretRuntimeError);
                        },
                    };
                    self.stack.push(v);
                    self.ip = self.ip + 2;
                    proof {
                        assert(stack_view(self.stack@) =~= pre.stack.push(
                            consts[code[pre.ip + 1] as int],
                        ));
                        assert(step(code, consts, pre) == StepR::Next(self@));
                    }
                },
                OpCode::Negate => {
                    let n = self.stack.len();
                    if n == 0 {
                        proof {
                            assert(step(code, consts, self@) == StepR::Abort);
                        }
                        return Some(InterpretResult::InterpretRuntimeError);
                    }
                    let x = match &self.stack[n - 1] {
                        Value::Number(x) => *x,
                        _ => {
                            proof {
                                assert(step(code, consts, self@) == StepR::Abort);
                            }
                            return Some(InterpretResult::InterpretRuntimeError);
                        },
                    };
                    self.stack.pop();
                    self.stack.push(Value::Number(neg_number(x)));
                    self.ip = self.ip + 1;
                    proof {
                        assert(stack_view(self.stack@) =~= pre.stack.drop_last().push(
                            ValueV::Number(num_neg(x)),
                        ));
                        assert(step(code, consts, pre) == StepR::Next(self@));
                    }
                },
                OpCode::Add | OpCode::Subtract | OpCode::Multiply | OpCode::Divide => {
                    if !self.binary_op(memory, opcode) {
                        proof {
                            assert(step(code, consts, self@) == StepR::Abort);
                        }
                        return Some(InterpretResult::InterpretRuntimeError);
                    }
                },
                OpCode::Not => {
                    let n = self.stack.len();
                    if n == 0 {
                        proof {
                            assert(step(code, consts, self@) == StepR::Abort);
                        }
                        return Some(InterpretResult::InterpretRuntimeError);
                    }
                    let flipped = match &self.stack[n - 1] {
                        Value::Bool(b) => Value::Bool(!*b),
                        Value::Nil => Value::Bool(true),
                        _ => {
                            proof {
                                assert(step(code, consts, self@) == StepR::Abort);
                            }
                            return Some(InterpretResult::InterpretRuntimeError);
                        },
                    };
                    self.stack.pop();
                    self.stack.push(flipped);
                    self.ip = self.ip + 1;
                    proof {
                        assert(stack_view(self.stack@) =~= pre.stack.drop_last().push(flipped@));
                        assert(step(code, consts, pre) == StepR::Next(self@));
                    }
                },
                OpCode::Equal => {
                    let n = self.stack.len();
                    if n < 2 {
                        proof {
                            assert(step(code, consts, self@) == StepR::Abort);
                        }
                        return Some(InterpretResult::InterpretRuntimeError);
                    }
                    let eq = value_eq(&self.stack[n - 2], &self.stack[n - 1]);
                    self.stack.pop();
                    self.stack.pop();
                    self.stack.push(Value::Bool(eq));
                    self.ip = self.ip + 1;
                    proof {
                        assert(stack_view(self.stack@) =~= pre.stack.drop_last().drop_last().push(
                            ValueV::Bool(eq),
                        ));
                        assert(step(code, consts, pre) == StepR::Next(self@));
                    }
                },
                OpCode::Greater | OpCode::Less => {
                    let n = self.stack.len();
                    if n < 2 {
                        proof {
                            assert(step(code, consts, self@) == StepR::Abort);
                        }
                        return Some(InterpretResult::InterpretRuntimeError);
                    }
                    let want_greater = match opcode {
                        OpCode::Greater => true,
                        _ => false,
                    };
                    let cmp = match (&self.stack[n - 2], &self.stack[n - 1]) {
                        (Value::Number(x), Value::Number(y)) => {
                            if want_greater {
                                gt_numbers(*x, *y)
                            } else {
                                lt_numbers(*x, *y)
                            }
                        },
                        (Value::Object(Object::String(x)), Value::Object(Object::String(y))) => {
                            if want_greater {
                                chars_lt(y, x)
                            } else {
                                chars_lt(x, y)
                            }
                        },
                        _ => {
                            proof {
                                assert(step(code, consts, self@) == StepR::Abort);
                            }
                            return Some(InterpretResult::InterpretRuntimeError);
                        },
                    };
                    self.stack.pop();
                    self.stack.pop();
                    self.stack.push(Value::Bool(cmp));
                    self.ip = self.ip + 1;
                    proof {
                        assert(stack_view(self.stack@) =~= pre.stack.drop_last().drop_last().push(
                            ValueV::Bool(cmp),
                        ));
                        assert(step(code, consts, pre) == StepR::Next(self@));
                    }
                },
                OpCode::Print => {
                    let v = match self.stack.pop() {
                        Some(v) => v,
                        None => {
                            proof {
                                assert(step(code, consts, self@) == StepR::Abort);
                            }
                            return Some(InterpretResult::InterpretRuntimeError);
                        },
                    };
                    let text = render_value(&v);
                    self.output.push(text);
                    self.ip = self.ip + 1;
                    proof {
                        assert(stack_view(self.stack@) =~= pre.stack.drop_last());
                        assert(output_view(self.output@) =~= pre.output.push(
                            spec_render(pre.stack.last()),
                        ));
                        assert(step(code, consts, pre) == StepR::Next(self@));
                    }
                },
                OpCode::SetSP => {
                    self.sp = self.stack.len();
                    self.ip = self.ip + 1;
                    proof {
                        assert(step(code, consts, pre) == StepR::Next(self@));
                    }
                },
                OpCode::DefineGlobalVar => {
                    let name = match self.get_operand_global_name(memory) {
                        Some(name) => name,
                        None => {
                            proof {
                                assert(step(code, consts, self@) == StepR::Abort);
                            }
                            return Some(InterpretResult::InterpretRuntimeError);
                        },
                    };
                    let v = match self.stack.pop() {
                        Some(v) => v,
                        None => {
                            proof {
                                assert(step(code, consts, self@) == StepR::Abort);
                            }
                            return Some(InterpretResult::InterpretRuntimeError);
                        },
                    };
                    self.globals.insert(name, v);
                    self.ip = self.ip + 2;
                    proof {
                        assert(stack_view(self.stack@) =~= pre.stack.drop_last());
                        assert(step(code, consts, pre) == StepR::Next(self@));
                    }
                },
                OpCode::GetGlobalVar => {
                    let name = match self.get_operand_global_name(memory) {
                        Some(name) => name,
                        None => {
                            proof {
                                assert(step(code, consts, self@) == StepR::Abort);
                            }
                            return Some(InterpretResult::InterpretRuntimeError);
                        },
                    };
                    let v = match self.globals.get(&name) {
                        Some(v) => v,
                        None => {
                            proof {
                                assert(step(code, consts, self@) == StepR::Abort);
                            }
                            return Some(InterpretResult::InterpretRuntimeError);
                        },
                    };
                    self.stack.push(v);
                    self.ip = self.ip + 2;
                    proof {
                        assert(stack_view(self.stack@) =~= pre.stack.push(
                            pre.globals[global_name_at(code, consts, pre.ip).unwrap()],
                        ));
                        assert(step(code, consts, pre) == StepR::Next(self@));
                    }
                },
                OpCode::SetGlobalVar => {
                    let name = match self.get_operand_global_name(memory) {
                        Some(name) => name,
                        None => {
                            proof {
                                assert(step(code, consts, self@) == StepR::Abort);
                            }
                            return Some(InterpretResult::InterpretRuntimeError);
                        },
                    };
                    if self.globals.get(&name).is_none() {
                        proof {
                            assert(step(code, consts, self@) == StepR::Abort);
                        }
                        return Some(InterpretResult::InterpretRuntimeError);
                    }
                    let n = self.stack.len();
                    if n == 0 {
                        proof {
                            assert(step(code, consts, self@) == StepR::Abort);
                        }
                        return Some(InterpretResult::InterpretRuntimeError);
                    }
                    let top = clone_value(&self.stack[n - 1]);
                    self.globals.insert(name, top);
                    self.ip = self.ip + 2;
                    proof {
                        assert(step(code, consts, pre) == StepR::Next(self@));
                    }
                },
                OpCode::GetLocalVar => {
                    let slot = match self.get_operand_slot(memory) {
                        Some(x) => x,
                        None => {
                            proof {
                                assert(step(code, consts, self@) == StepR::Abort);
                            }
                            return Some(InterpretResult::InterpretRuntimeError);
                        },
                    };
                    let bound = self.stack.len();
                    if slot > (usize::MAX - self.sp) as u64 {
                        proof {
                            assert(step(code, consts, self@) == StepR::Abort);
                        }
                        return Some(InterpretResult::InterpretRuntimeError);
                    }
                    let loc = self.sp + (slot as usize);
                    if loc >= self.stack.len() {
                        proof {
                            assert(step(code, consts, self@) == StepR::Abort);
                        }
                        return Some(InterpretResult::InterpretRuntimeError);
                    }
                    let v = clone_value(&self.stack[loc]);
                    self.stack.push(v);
                    self.ip = self.ip + 2;
                    proof {
                        assert(stack_view(self.stack@) =~= pre.stack.push(
                            pre.stack[pre.sp + slot],
                        ));
                        assert(step(code, consts, pre) == StepR::Next(self@));
                    }
                },
                OpCode::SetLocalVar => {
                    let slot = match self.get_operand_slot(memory) {
                        Some(x) => x,
                        None => {
                            proof {
                                assert(step(code, consts, self@) == StepR::Abort);
                            }
                            return Some(InterpretResult::InterpretRuntimeError);
                        },
                    };
                    let bound = self.stack.len();
                    if slot > (usize::MAX - self.sp) as u64 {
                        proof {
                            assert(step(code, consts, self@) == StepR::Abort);
                        }
                        return Some(InterpretResult::InterpretRuntimeError);
                    }
                    let loc = self.sp + (slot as usize);
                    let n = self.stack.len();
                    if loc >= n || n == 0 {
                        proof {
                            assert(step(code, consts, self@) == StepR::Abort);
                        }
                        return Some(InterpretResult::InterpretRuntimeError);
                    }
                    let top = clone_value(&self.stack[n - 1]);
                    self.stack.set(loc, top);
                    self.ip = self.ip + 2;
                    proof {
                        assert(stack_view(self.stack@) =~= pre.stack.update(
                            pre.sp + slot,
                            pre.stack.last(),
                        ));
                        assert(step(code, consts, pre) == StepR::Next(self@));
                    }
                },
                OpCode::JmpFalse | OpCode::JmpTrue => {
                    let steps = match memory.read_at_ip(self.ip + 1) {
                        Some(w2) => w2,
                        None => {
                            proof {
                                assert(step(code, consts, self@) == StepR::Abort);
                            }
                            return Some(InterpretResult::InterpretRuntimeError);
                        },
                    };
                    let n = self.stack.len();
                    if n == 0 {
                        proof {
                            assert(step(code, consts, self@) == StepR::Abort);
                        }
                        return Some(InterpretResult::InterpretRuntimeError);
                    }
                    let b = match &self.stack[n - 1] {
                        Value::Bool(b) => *b,
                        _ => {
                            proof {
                                assert(step(code, consts, self@) == StepR::Abort);
                            }
                            return Some(InterpretResult::InterpretRuntimeError);
                        },
                    };
                    let jump_on = match opcode {
                        OpCode::JmpTrue => true,
                        _ => false,
                    };
                    if b == jump_on {
                        if (steps as usize) > csize - (self.ip + 2) {
                            proof {
                                assert(step(code, consts, self@) == StepR::Abort);
                            }
                            return Some(InterpretResult::InterpretRuntimeError);
                        }
                        self.ip = self.ip + 2 + (steps as usize);
                    } else {
                        self.ip = self.ip + 2;
                    }
                    proof {
                        assert(step(code, consts, pre) == StepR::Next(self@));
                    }
                },
                OpCode::Jmp => {
                    let steps = match memory.read_at_ip(self.ip + 1) {
                        Some(w2) => w2,
                        None => {
                            proof {
                                assert(step(code, consts, self@) == StepR::Abort);
                            }
                            return Some(InterpretResult::InterpretRuntimeError);
                        },
                    };
                    if (steps as usize) > csize - (self.ip + 2) {
                        proof {
                            assert(step(code, consts, self@) == StepR::Abort);
                        }
                        return Some(InterpretResult::InterpretRuntimeError);
                    }
                    self.ip = self.ip + 2 + (steps as usize);
                    proof {
                        assert(step(code, consts, pre) == StepR::Next(self@));
                    }
                },
                OpCode::Loop => {
                    let steps = match memory.read_at_ip(self.ip + 1) {
                        Some(w2) => w2,
                        None => {
                            proof {
                                assert(step(code, consts, self@) == StepR::Abort);
                            }
                            return Some(InterpretResult::InterpretRuntimeError);
                        },
                    };
                    if (steps as usize) > self.ip + 2 {
                        proof {
                            assert(step(code, consts, self@) == StepR::Abort);
                        }
                        return Some(InterpretResult::InterpretRuntimeError);
                    }
                    self.ip = self.ip + 2 - (steps as usize);
                    proof {
                        assert(step(code, consts, pre) == StepR::Next(self@));
                    }
                },
                OpCode::PopStoreTmp => {
                    let v = match self.stack.pop() {
                        Some(v) => v,
                        None => {
                            proof {
                                assert(step(code, consts, self@) == StepR::Abort);
                            }
                            return Some(InterpretResult::InterpretRuntimeError);
                        },
                    };
                    self.temp_val = v;
                    self.ip = self.ip + 1;
                    proof {
                        assert(stack_view(self.stack@) =~= pre.stack.drop_last());
                        assert(step(code, consts, pre) == StepR::Next(self@));
                    }
                },
                OpCode::Call => {
                    let argc = match memory.read_at_ip(self.ip + 1) {
                        Some(w2) => w2,
                        None => {
                            proof {
                                assert(step(code, consts, self@) == StepR::Abort);
                            }
                            return Some(InterpretResult::InterpretRuntimeError);
                        },
                    };
                    let (address, arity) = match &self.temp_val {
                        Value::Object(Object::Function { name: _, address, arity }) => (
                            *address,
                            *arity,
                        ),
                        _ => {
                            proof {
                                assert(step(code, consts, self@) == StepR::Abort);
                            }
                            return Some(InterpretResult::InterpretRuntimeError);
                        },
                    };
                    if arity != argc as usize || (argc as usize) > self.stack.len() {
                        proof {
                            assert(step(code, consts, self@) == StepR::Abort);
                        }
                        return Some(InterpretResult::InterpretRuntimeError);
                    }
                    self.ip_stack.push(self.ip + 2);
                    self.sp_stack.push(self.sp);
                    self.sp = self.stack.len() - (argc as usize);
                    self.ip = address;
                    proof {
                        assert(ips_view(self.ip_stack@) =~= pre.ip_stack.push(pre.ip + 2));
                        assert(ips_view(self.sp_stack@) =~= pre.sp_stack.push(pre.sp));
                        assert(step(code, consts, pre) == StepR::Next(self@));
                    }
                },
                OpCode::Return => {
                    if self.ip_stack.len() == 0 || self.sp_stack.len() == 0 {
                        proof {
                            assert(step(code, consts, self@) == StepR::Abort);
                        }
                        return Some(InterpretResult::InterpretRuntimeError);
                    }
                    let ret = match self.ip_stack.pop() {
                        Some(r2) => r2,
                        None => {
                            return Some(InterpretResult::InterpretRuntimeError);
                        },
                    };
                    let caller_sp = match self.sp_stack.pop() {
                        Some(b) => b,
                        None => {
                            return Some(InterpretResult::InterpretRuntimeError);
                        },
                    };
                    let t = clone_value(&self.temp_val);
                    self.temp_val = Value::Nil;
                    self.stack.push(t);
                    self.sp = caller_sp;
                    self.ip = ret;
                    proof {
                        assert(ips_view(self.ip_stack@) =~= pre.ip_stack.drop_last());
                        assert(ips_view(self.sp_stack@) =~= pre.sp_stack.drop_last());
                        assert(stack_view(self.stack@) =~= pre.stack.push(pre.temp));
                        assert(step(code, consts, pre) == StepR::Next(self@));
                    }
                },
                OpCode::Panic => {
                    proof {
                        assert(step(code, consts, self@) == StepR::Abort);
                    }
                    return Some(InterpretResult::InterpretRuntimeError);
                },
            }
            proof {
                lemma_reaches_snoc(code, consts, s0, pre, self@, taken);
                taken = taken + 1;
            }
        }
        None
    }

    /// Run the chunk until it halts at `Eof` or aborts with a runtime
    /// error, under a step budget so large that exhausting it is out of
    /// practical reach; the contract records that possibility all the
    /// same.
    pub fn interpret(&mut self, memory: &MemorySlice) -> (r: InterpretResult)
        requires
            old(self).wf(),
        ensures
            final(self).wf(),
            exists|n: nat|
                {
                    &&& #[trigger] reaches(memory.code(), memory.consts(), old(self)@, final(self)@, n)
                    &&& (r is InterpretOk ==> step(memory.code(), memory.consts(), final(self)@)
                        == StepR::Halt)
                    &&& (r is InterpretRuntimeError ==> step(
                        memory.code(),
                        memory.consts(),
                        final(self)@,
                    ) == StepR::Abort || n == u64::MAX)
                },
            r is InterpretOk || r is InterpretRuntimeError,
    {
        match self.run_steps(memory, u64::MAX) {
            Some(r) => r,
            None => InterpretResult::InterpretRuntimeError,
        }
    }
}

} // verus!
