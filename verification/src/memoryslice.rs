use vstd::prelude::*;
use crate::opcodes::{word_of, OpCode, PANIC_WORD};
use crate::values::{same_value, Value, ValueV};

verus! {

/// Whether a code word is the wire form of one of the four jump opcodes.
pub open spec fn is_jump_word(w: u16) -> bool {
    w == word_of(OpCode::Jmp) || w == word_of(OpCode::JmpTrue) || w == word_of(OpCode::JmpFalse)
        || w == word_of(OpCode::Loop)
}

/// The number of entries of `s` that are at most `p`.
pub open spec fn count_le(s: Seq<usize>, p: int) -> int
    decreases s.len(),
{
    if s.len() == 0 {
        0
    } else {
        count_le(s.drop_last(), p) + if s.last() <= p {
            1int
        } else {
            0int
        }
    }
}

/// The compiled unit: an append-only sequence of 16-bit code words, a
/// constant pool deduplicated by structural equality, and a table of code
/// offsets at which the source line advances.
///
/// Three ghost sets follow the emission discipline: the offsets holding
/// jump opcodes, the operand offsets still holding the `Panic`
/// placeholder of an unpatched forward jump, and the operand offsets that
/// reference the constant pool.
pub struct MemorySlice {
    memory: Vec<u16>,
    constants: Vec<Value>,
    lines: Vec<usize>,
    jumps: Ghost<Set<int>>,
    pending: Ghost<Set<int>>,
    consts_at: Ghost<Set<int>>,
}

impl MemorySlice {
    /// The code words.
    pub closed spec fn code(&self) -> Seq<u16> {
        self.memory@
    }

    /// The constant pool, as mathematical values.
    pub closed spec fn consts(&self) -> Seq<ValueV> {
        self.constants@.map_values(|v: Value| v@)
    }

    /// The line table.
    pub closed spec fn line_marks(&self) -> Seq<usize> {
        self.lines@
    }

    /// The offsets at which a jump or loop opcode was emitted.
    pub closed spec fn spec_jumps(&self) -> Set<int> {
        self.jumps@
    }

    /// The operand offsets of forward jumps that still await their patch.
    pub closed spec fn spec_pending(&self) -> Set<int> {
        self.pending@
    }

    /// The operand offsets that reference the constant pool.
    pub closed spec fn spec_consts_at(&self) -> Set<int> {
        self.consts_at@
    }

    /// Well-formedness of the chunk.
    ///
    /// The constant pool holds no two structurally equal entries; every
    /// constant-reference operand is in range for the pool; every
    /// recorded jump opcode is followed by its operand word, which is
    /// either a registered pending placeholder or an already-resolved
    /// distance; and the line table is a nondecreasing sequence of code
    /// offsets.
    pub open spec fn inv(&self) -> bool {
        &&& forall|i: int, j: int|
            0 <= i < j < self.consts().len() ==> #[trigger] self.consts()[i] != #[trigger] self.consts()[j]
        &&& forall|s: int|
            #[trigger] self.spec_consts_at().contains(s) ==> 0 <= s < self.code().len() && (
            self.code()[s] as int) < self.consts().len()
        &&& forall|s: int|
            #[trigger] self.spec_jumps().contains(s) ==> 0 <= s && s + 1 < self.code().len()
                && is_jump_word(self.code()[s]) && (self.spec_pending().contains(s + 1)
                || self.code()[s + 1] != PANIC_WORD)
        &&& forall|p: int|
            #[trigger] self.spec_pending().contains(p) ==> 0 <= p < self.code().len() && (
            self.code()[p]) == PANIC_WORD && !self.spec_consts_at().contains(p)
        &&& forall|i: int, j: int|
            0 <= i < j < self.line_marks().len() ==> #[trigger] self.line_marks()[i] <= #[trigger] self.line_marks()[j]
        &&& forall|i: int|
            0 <= i < self.line_marks().len() ==> (#[trigger] self.line_marks()[i] as int)
                < self.code().len()
    }

    pub fn new() -> (m: MemorySlice)
        ensures
            m.inv(),
            m.code() =~= Seq::<u16>::empty(),
            m.consts() =~= Seq::<ValueV>::empty(),
            m.line_marks() =~= Seq::<usize>::empty(),
            m.spec_jumps() =~= Set::<int>::empty(),
            m.spec_pending() =~= Set::<int>::empty(),
            m.spec_consts_at() =~= Set::<int>::empty(),
    {
        MemorySlice {
            memory: Vec::new(),
            constants: Vec::new(),
            lines: Vec::new(),
            jumps: Ghost(Set::empty()),
            pending: Ghost(Set::empty()),
            consts_at: Ghost(Set::empty()),
        }
    }

    /// Append an opcode word.
    pub fn push(&mut self, oc: OpCode)
        requires
            old(self).inv(),
        ensures
            final(self).inv(),
            final(self).code() == old(self).code().push(word_of(oc)),
            final(self).consts() == old(self).consts(),
            final(self).line_marks() == old(self).line_marks(),
            final(self).spec_jumps() == old(self).spec_jumps(),
            final(self).spec_pending() == old(self).spec_pending(),
            final(self).spec_consts_at() == old(self).spec_consts_at(),
    {
        let w = oc.repr();
        self.memory.push(w);
        proof {
            lemma_inv_append_words(old(self), self);
        }
    }

    /// Append a raw operand word.
    pub fn push_raw(&mut self, w: u16)
        requires
            old(self).inv(),
        ensures
            final(self).inv(),
            final(self).code() == old(self).code().push(w),
            final(self).consts() == old(self).consts(),
            final(self).line_marks() == old(self).line_marks(),
            final(self).spec_jumps() == old(self).spec_jumps(),
            final(self).spec_pending() == old(self).spec_pending(),
            final(self).spec_consts_at() == old(self).spec_consts_at(),
    {
        self.memory.push(w);
        proof {
            lemma_inv_append_words(old(self), self);
        }
    }

    /// Record that the current source line ends just before the next
    /// instruction.  Ignored while no code has been emitted.
    pub fn line_end(&mut self)
        requires
            old(self).inv(),
        ensures
            final(self).inv(),
            final(self).line_marks() == if old(self).code().len() == 0 {
                old(self).line_marks()
            } else {
                old(self).line_marks().push((old(self).code().len() - 1) as usize)
            },
            final(self).code() == old(self).code(),
            final(self).consts() == old(self).consts(),
            final(self).spec_jumps() == old(self).spec_jumps(),
            final(self).spec_pending() == old(self).spec_pending(),
            final(self).spec_consts_at() == old(self).spec_consts_at(),
    {
        if self.memory.len() == 0 {
            return ;
        }
        let mark = self.memory.len() - 1;
        self.lines.push(mark);
        proof {
            assert forall|i: int, j: int|
                0 <= i < j < self.line_marks().len() implies #[trigger] self.line_marks()[i]
                    <= #[trigger] self.line_marks()[j] by {
                if j < old(self).line_marks().len() {
                    assert(old(self).line_marks()[i] <= old(self).line_marks()[j]);
                } else {
                    assert((old(self).line_marks()[i] as int) < old(self).code().len());
                }
            }
            assert forall|i: int|
                0 <= i < self.line_marks().len() implies (#[trigger] self.line_marks()[i] as int)
                < self.code().len() by {
                if i < old(self).line_marks().len() {
                    assert((old(self).line_marks()[i] as int) < old(self).code().len());
                }
            }
            assert forall|t: int| #[trigger] self.spec_consts_at().contains(t) implies 0 <= t
                < self.code().len() && (self.code()[t] as int) < self.consts().len() by {
                assert(old(self).spec_consts_at().contains(t));
            }
            assert forall|t: int| #[trigger] self.spec_jumps().contains(t) implies 0 <= t && t + 1
                < self.code().len() && is_jump_word(self.code()[t]) && (self.spec_pending()
                .contains(t + 1) || self.code()[t + 1] != PANIC_WORD) by {
                assert(old(self).spec_jumps().contains(t));
            }
            assert forall|t: int| #[trigger] self.spec_pending().contains(t) implies 0 <= t
                < self.code().len() && (self.code()[t]) == PANIC_WORD
                && !self.spec_consts_at().contains(t) by {
                assert(old(self).spec_pending().contains(t));
            }
        }
    }

    /// The source line for the code offset `op_location`: the number of
    /// line marks at or before it.
    pub fn get_line(&self, op_location: usize) -> (line: usize)
        requires
            self.inv(),
        ensures
            line == count_le(self.line_marks(), op_location as int),
    {
        let mut line: usize = 0;
        let mut i: usize = 0;
        while i < self.lines.len()
            invariant
                self.inv(),
                i <= self.lines.len(),
                line == count_le(self.line_marks().subrange(0, i as int), op_location as int),
                line <= i,
            decreases self.lines.len() - i,
        {
            proof {
                assert(self.line_marks().subrange(0, i + 1).drop_last() =~= self.line_marks()
                    .subrange(0, i as int));
            }
            if self.lines[i] <= op_location {
                line += 1;
                i += 1;
            } else {
                // the line table is sorted, so every later mark is also
                // beyond the requested offset
                proof {
                    lemma_count_le_sorted_stops(self.line_marks(), op_location as int, i as int);
                }
                return line;
            }
        }
        proof {
            assert(self.line_marks().subrange(0, self.line_marks().len() as int) =~= self
                .line_marks());
        }
        line
    }

    /// Read the code word at `index`, if it exists.
    pub fn read_at_ip(&self, index: usize) -> (r: Option<u16>)
        ensures
            r == if (index as int) < self.code().len() {
                Some(self.code()[index as int])
            } else {
                None::<u16>
            },
    {
        if index < self.memory.len() {
            Some(self.memory[index])
        } else {
            None
        }
    }

    /// Resolve the pending placeholder at `index` to the jump distance
    /// `v`.
    pub fn replace_at_location(&mut self, index: usize, v: u16)
        requires
            old(self).inv(),
            old(self).spec_pending().contains(index as int),
            v != PANIC_WORD,
        ensures
            final(self).inv(),
            final(self).code() == old(self).code().update(index as int, v),
            final(self).consts() == old(self).consts(),
            final(self).line_marks() == old(self).line_marks(),
            final(self).spec_jumps() == old(self).spec_jumps(),
            final(self).spec_pending() == old(self).spec_pending().remove(index as int),
            final(self).spec_consts_at() == old(self).spec_consts_at(),
    {
        self.memory.set(index, v);
        proof {
            self.pending@ = self.pending@.remove(index as int);
            assert forall|t: int| #[trigger] self.spec_consts_at().contains(t) implies 0 <= t
                < self.code().len() && (self.code()[t] as int) < self.consts().len() by {
                assert(old(self).spec_consts_at().contains(t));
                assert(old(self).spec_pending().contains(index as int));
                assert(t != index as int);
            }
            assert forall|t: int| #[trigger] self.spec_jumps().contains(t) implies 0 <= t && t + 1
                < self.code().len() && is_jump_word(self.code()[t]) && (self.spec_pending()
                .contains(t + 1) || self.code()[t + 1] != PANIC_WORD) by {
                assert(old(self).spec_jumps().contains(t));
                assert(old(self).spec_pending().contains(index as int));
                assert(old(self).code()[index as int] == PANIC_WORD);
                assert(t != index as int);
            }
            assert forall|t: int| #[trigger] self.spec_pending().contains(t) implies 0 <= t
                < self.code().len() && (self.code()[t]) == PANIC_WORD
                && !self.spec_consts_at().contains(t) by {
                assert(old(self).spec_pending().contains(t));
                assert(t != index as int);
            }
            assert forall|i: int, j: int|
                0 <= i < j < self.line_marks().len() implies #[trigger] self.line_marks()[i]
                    <= #[trigger] self.line_marks()[j] by {
                assert(old(self).line_marks()[i] <= old(self).line_marks()[j]);
            }
            assert forall|i: int|
                0 <= i < self.line_marks().len() implies (#[trigger] self.line_marks()[i] as int)
                < self.code().len() by {
                assert((old(self).line_marks()[i] as int) < old(self).code().len());
            }
        }
    }

    /// Fetch the constant with the given pool id, if it exists.
    pub fn get_constant(&self, index: u16) -> (r: Option<Value>)
        ensures
            (index as int) < self.consts().len() ==> (r matches Some(v) && v@ == self.consts()[
                index as int
            ]),
            (index as int) >= self.consts().len() ==> r is None,
    {
        if (index as usize) < self.constants.len() {
            Some(crate::values::clone_value(&self.constants[index as usize]))
        } else {
            None
        }
    }

    /// The current code length.
    pub fn get_memory_size(&self) -> (r: usize)
        ensures
            r == self.code().len(),
    {
        self.memory.len()
    }

    /// The current size of the constant pool.
    pub fn constants_count(&self) -> (r: usize)
        ensures
            r == self.consts().len(),
    {
        self.constants.len()
    }

    /// The effect of `push_constant`: `v` is found in the pool by
    /// structural equality or appended at its end, and the opcode with
    /// the pool id of `v` is appended to the code; nothing else moves.
    pub open spec fn pushed_constant(a: &MemorySlice, b: &MemorySlice, op: OpCode, v: ValueV) -> bool {
        &&& b.line_marks() == a.line_marks()
        &&& b.spec_jumps() == a.spec_jumps()
        &&& b.spec_pending() == a.spec_pending()
        &&& b.spec_consts_at() == a.spec_consts_at().insert(a.code().len() as int + 1)
        &&& b.code().len() == a.code().len() + 2
        &&& b.code() == a.code().push(word_of(op)).push(b.code()[a.code().len() as int + 1])
        &&& (if exists|j: int| 0 <= j < a.consts().len() && a.consts()[j] == v {
            b.consts() == a.consts() && b.consts()[b.code()[a.code().len() as int + 1] as int] == v
        } else {
            b.consts() == a.consts().push(v) && b.code()[a.code().len() as int + 1]
                == a.consts().len() as u16
        })
    }

    /// Find or insert `v` in the constant pool by structural equality,
    /// then append `op` followed by the pool id of `v`.
    pub fn push_constant(&mut self, op: OpCode, v: Value)
        requires
            old(self).inv(),
            old(self).consts().len() <= 65535,
        ensures
            final(self).inv(),
            final(self).line_marks() == old(self).line_marks(),
            final(self).spec_jumps() == old(self).spec_jumps(),
            final(self).spec_pending() == old(self).spec_pending(),
            final(self).spec_consts_at() == old(self).spec_consts_at().insert(old(self).code().len() as int + 1),
            final(self).code().len() == old(self).code().len() + 2,
            final(self).code()[old(self).code().len() as int] == word_of(op),
            final(self).code() =~= old(self).code().push(word_of(op)).push(
                final(self).code()[old(self).code().len() as int + 1],
            ),
            Self::pushed_constant(old(self), final(self), op, v@),
            (if exists|j: int| 0 <= j < old(self).consts().len() && old(self).consts()[j] == v@ {
                final(self).consts() == old(self).consts() && final(self).consts()[final(self).code()[old(self).code().len() as int + 1] as int] == v@
            } else {
                final(self).consts() == old(self).consts().push(v@) && final(self).code()[old(self).code().len() as int + 1] == old(self).consts().len() as u16
            }),
    {
        let ghost old_consts = self.consts();
        let mut index: usize = self.constants.len();
        let mut found = false;
        let mut i: usize = 0;
        while i < self.constants.len()
            invariant
                self.inv(),
                i <= self.constants.len(),
                !found ==> forall|k: int| 0 <= k < i ==> self.consts()[k] != v@,
                !found ==> index == self.constants.len(),
                found ==> 0 <= index < self.constants.len() && self.consts()[index as int] == v@,
                self.consts() == old_consts,
                self.code() == old(self).code(),
                self.line_marks() == old(self).line_marks(),
                self.spec_jumps() == old(self).spec_jumps(),
                self.spec_pending() == old(self).spec_pending(),
                self.spec_consts_at() == old(self).spec_consts_at(),
            decreases self.constants.len() - i,
        {
            if !found && same_value(&self.constants[i], &v) {
                index = i;
                found = true;
            }
            i += 1;
        }
        if !found {
            proof {
                assert forall|j: int|
                    0 <= j < old_consts.len() implies old_consts[j] != v@ by {}
            }
            self.constants.push(v);
            proof {
                assert(self.consts() =~= old_consts.push(v@));
            }
        }
        let w = op.repr();
        self.memory.push(w);
        self.memory.push(index as u16);
        proof {
            self.consts_at@ = self.consts_at@.insert(old(self).code().len() as int + 1);
        }
    }

    /// One line of the code dump for each word from position `i` on.
    pub open spec fn dump_code_lines(code: Seq<u16>, i: int) -> Seq<char>
        decreases code.len() - i,
    {
        if i < 0 || i >= code.len() {
            Seq::empty()
        } else {
            crate::values::dec_digits(i) + seq![' ', '-', '-', ' '] + crate::values::dec_digits(
                code[i] as int,
            ) + seq!['\n'] + Self::dump_code_lines(code, i + 1)
        }
    }

    /// One line of the pool dump for each constant from position `i` on.
    pub open spec fn dump_const_lines(consts: Seq<ValueV>, i: int) -> Seq<char>
        decreases consts.len() - i,
    {
        if i < 0 || i >= consts.len() {
            Seq::empty()
        } else {
            crate::values::dec_digits(i) + seq![' ', '=', ' '] + crate::values::spec_render(
                consts[i],
            ) + seq!['\n'] + Self::dump_const_lines(consts, i + 1)
        }
    }

    /// A plain-text dump of the chunk for inspection: a header with the
    /// given name, every code word with its offset, then every pool
    /// entry with its id.
    pub fn debug(&self, name: &Vec<char>) -> (r: Vec<char>)
        ensures
            r@ == seq!['=', '=', ' '] + name@ + seq![' ', '=', '=', '\n'] + Self::dump_code_lines(
                self.code(),
                0,
            ) + Self::dump_const_lines(self.consts(), 0),
    {
        let ghost header = seq!['=', '=', ' '] + name@ + seq![' ', '=', '=', '\n'];
        let mut out: Vec<char> = Vec::new();
        out.push('=');
        out.push('=');
        out.push(' ');
        let mut title = name.clone();
        out.append(&mut title);
        out.push(' ');
        out.push('=');
        out.push('=');
        out.push('\n');
        proof {
            assert(out@ =~= header);
        }
        let mut i: usize = 0;
        while i < self.memory.len()
            invariant
                i <= self.memory@.len(),
                out@ + Self::dump_code_lines(self.code(), i as int) =~= header
                    + Self::dump_code_lines(self.code(), 0),
            decreases self.memory@.len() - i,
        {
            let ghost before = out@;
            let mut offset = crate::values::dec_text(i);
            out.append(&mut offset);
            out.push(' ');
            out.push('-');
            out.push('-');
            out.push(' ');
            let mut word = crate::values::dec_text(self.memory[i] as usize);
            out.append(&mut word);
            out.push('\n');
            proof {
                assert(out@ =~= before + crate::values::dec_digits(i as int) + seq![
                    ' ',
                    '-',
                    '-',
                    ' ',
                ] + crate::values::dec_digits(self.code()[i as int] as int) + seq!['\n']);
                assert(out@ + Self::dump_code_lines(self.code(), i + 1) =~= before
                    + Self::dump_code_lines(self.code(), i as int));
            }
            i += 1;
        }
        proof {
            assert(out@ =~= header + Self::dump_code_lines(self.code(), 0));
        }
        let ghost with_code = out@;
        let mut k: usize = 0;
        while k < self.constants.len()
            invariant
                k <= self.constants@.len(),
                out@ + Self::dump_const_lines(self.consts(), k as int) =~= with_code
                    + Self::dump_const_lines(self.consts(), 0),
            decreases self.constants@.len() - k,
        {
            let ghost before = out@;
            let mut id = crate::values::dec_text(k);
            out.append(&mut id);
            out.push(' ');
            out.push('=');
            out.push(' ');
            let mut text = crate::values::render_value(&self.constants[k]);
            out.append(&mut text);
            out.push('\n');
            proof {
                assert(out@ =~= before + crate::values::dec_digits(k as int) + seq![' ', '=', ' ']
                    + crate::values::spec_render(self.consts()[k as int]) + seq!['\n']);
                assert(out@ + Self::dump_const_lines(self.consts(), k + 1) =~= before
                    + Self::dump_const_lines(self.consts(), k as int));
            }
            k += 1;
        }
        proof {
            assert(out@ =~= header + Self::dump_code_lines(self.code(), 0)
                + Self::dump_const_lines(self.consts(), 0));
        }
        out
    }

    /// Emit a forward jump: the opcode, then a `Panic` placeholder to be
    /// patched later.  Returns the offset of the placeholder.
    pub fn push_jmp(&mut self, op: OpCode) -> (off: usize)
        requires
            old(self).inv(),
            op == OpCode::Jmp || op == OpCode::JmpTrue || op == OpCode::JmpFalse,
        ensures
            final(self).inv(),
            off == old(self).code().len() + 1,
            final(self).code() == old(self).code().push(word_of(op)).push(PANIC_WORD),
            final(self).consts() == old(self).consts(),
            final(self).line_marks() == old(self).line_marks(),
            final(self).spec_jumps() == old(self).spec_jumps().insert(old(self).code().len() as int),
            final(self).spec_pending() == old(self).spec_pending().insert(old(self).code().len() as int + 1),
            final(self).spec_consts_at() == old(self).spec_consts_at(),
    {
        let w = op.repr();
        self.memory.push(w);
        self.memory.push(PANIC_WORD);
        proof {
            self.jumps@ = self.jumps@.insert(old(self).code().len() as int);
            self.pending@ = self.pending@.insert(old(self).code().len() as int + 1);
            lemma_inv_emit_jump(old(self), self, word_of(op), PANIC_WORD);
        }
        self.memory.len() - 1
    }

    /// A deep copy of the chunk, ghost bookkeeping included.
    pub fn clone_slice(&self) -> (m: MemorySlice)
        ensures
            m.code() == self.code(),
            m.consts() == self.consts(),
            m.line_marks() == self.line_marks(),
            m.spec_jumps() == self.spec_jumps(),
            m.spec_pending() == self.spec_pending(),
            m.spec_consts_at() == self.spec_consts_at(),
            self.inv() ==> m.inv(),
    {
        let mut constants: Vec<Value> = Vec::new();
        let mut i: usize = 0;
        while i < self.constants.len()
            invariant
                i <= self.constants@.len(),
                constants@.len() == i,
                forall|k: int| 0 <= k < i ==> (#[trigger] constants@[k])@ == self.constants@[k]@,
            decreases self.constants@.len() - i,
        {
            constants.push(crate::values::clone_value(&self.constants[i]));
            i += 1;
        }
        let m = MemorySlice {
            memory: self.memory.clone(),
            constants,
            lines: self.lines.clone(),
            jumps: Ghost(self.jumps@),
            pending: Ghost(self.pending@),
            consts_at: Ghost(self.consts_at@),
        };
        proof {
            assert(m.consts() =~= self.consts());
            assert(m.code() =~= self.code());
            assert(m.line_marks() =~= self.line_marks());
        }
        m
    }

    /// Emit a backward jump to `loop_start`.
    pub fn push_loop(&mut self, loop_start: usize)
        requires
            old(self).inv(),
            loop_start <= old(self).code().len(),
            old(self).code().len() + 2 - loop_start < PANIC_WORD,
        ensures
            final(self).inv(),
            final(self).code() == old(self).code().push(word_of(OpCode::Loop)).push(
                (old(self).code().len() + 2 - loop_start) as u16,
            ),
            final(self).consts() == old(self).consts(),
            final(self).line_marks() == old(self).line_marks(),
            final(self).spec_jumps() == old(self).spec_jumps().insert(old(self).code().len() as int),
            final(self).spec_pending() == old(self).spec_pending(),
            final(self).spec_consts_at() == old(self).spec_consts_at(),
    {
        let w = OpCode::Loop.repr();
        self.memory.push(w);
        let steps = self.memory.len() - loop_start + 1;
        self.memory.push(steps as u16);
        proof {
            self.jumps@ = self.jumps@.insert(old(self).code().len() as int);
            assert(steps as u16 != PANIC_WORD);
            lemma_inv_emit_jump(old(self), self, word_of(OpCode::Loop), steps as u16);
        }
    }
}

/// Appending one jump opcode with its operand word — registering the
/// site and, for a placeholder operand, its pending patch — preserves
/// well-formedness.
proof fn lemma_inv_emit_jump(a: &MemorySlice, b: &MemorySlice, opword: u16, operand: u16)
    requires
        a.inv(),
        is_jump_word(opword),
        b.code() == a.code().push(opword).push(operand),
        b.consts() == a.consts(),
        b.line_marks() == a.line_marks(),
        b.spec_consts_at() == a.spec_consts_at(),
        b.spec_jumps() == a.spec_jumps().insert(a.code().len() as int),
        operand == PANIC_WORD ==> b.spec_pending() == a.spec_pending().insert(
            a.code().len() as int + 1,
        ),
        operand != PANIC_WORD ==> b.spec_pending() == a.spec_pending(),
    ensures
        b.inv(),
{
    let n = a.code().len() as int;
    assert forall|t: int| #[trigger] b.spec_consts_at().contains(t) implies 0 <= t < b.code().len()
        && (b.code()[t] as int) < b.consts().len() by {
        assert(a.spec_consts_at().contains(t));
        assert(b.code()[t] == a.code()[t]);
    }
    assert forall|t: int| #[trigger] b.spec_jumps().contains(t) implies 0 <= t && t + 1
        < b.code().len() && is_jump_word(b.code()[t]) && (b.spec_pending().contains(t + 1)
        || b.code()[t + 1] != PANIC_WORD) by {
        if t == n {
            assert(b.code()[t] == opword);
            assert(b.code()[t + 1] == operand);
        } else {
            assert(a.spec_jumps().contains(t));
            assert(b.code()[t] == a.code()[t]);
            assert(b.code()[t + 1] == a.code()[t + 1]);
        }
    }
    assert forall|t: int| #[trigger] b.spec_pending().contains(t) implies 0 <= t < b.code().len()
        && (b.code()[t]) == PANIC_WORD && !b.spec_consts_at().contains(t) by {
        if t == n + 1 {
            assert(b.code()[t] == operand);
            if b.spec_consts_at().contains(t) {
                assert(a.spec_consts_at().contains(t));
                assert(t < a.code().len());
            }
        } else {
            assert(a.spec_pending().contains(t));
            assert(b.code()[t] == a.code()[t]);
        }
    }
    assert forall|i: int, j: int|
        0 <= i < j < b.line_marks().len() implies #[trigger] b.line_marks()[i]
        <= #[trigger] b.line_marks()[j] by {
        assert(a.line_marks()[i] <= a.line_marks()[j]);
    }
    assert forall|i: int|
        0 <= i < b.line_marks().len() implies (#[trigger] b.line_marks()[i] as int)
        < b.code().len() by {
        assert((a.line_marks()[i] as int) < a.code().len());
    }
}

/// Appending code words, with the pool, the line table and the ghost
/// bookkeeping untouched, preserves well-formedness.
proof fn lemma_inv_append_words(a: &MemorySlice, b: &MemorySlice)
    requires
        a.inv(),
        a.code().len() <= b.code().len(),
        forall|i: int| 0 <= i < a.code().len() ==> #[trigger] b.code()[i] == a.code()[i],
        b.consts() == a.consts(),
        b.line_marks() == a.line_marks(),
        b.spec_jumps() == a.spec_jumps(),
        b.spec_pending() == a.spec_pending(),
        b.spec_consts_at() == a.spec_consts_at(),
    ensures
        b.inv(),
{
    assert forall|t: int| #[trigger] b.spec_consts_at().contains(t) implies 0 <= t < b.code().len()
        && (b.code()[t] as int) < b.consts().len() by {
        assert(a.spec_consts_at().contains(t));
    }
    assert forall|t: int| #[trigger] b.spec_jumps().contains(t) implies 0 <= t && t + 1
        < b.code().len() && is_jump_word(b.code()[t]) && (b.spec_pending().contains(t + 1)
        || b.code()[t + 1] != PANIC_WORD) by {
        assert(a.spec_jumps().contains(t));
    }
    assert forall|t: int| #[trigger] b.spec_pending().contains(t) implies 0 <= t < b.code().len()
        && (b.code()[t]) == PANIC_WORD && !b.spec_consts_at().contains(t) by {
        assert(a.spec_pending().contains(t));
    }
    assert forall|i: int, j: int|
        0 <= i < j < b.line_marks().len() implies #[trigger] b.line_marks()[i]
        <= #[trigger] b.line_marks()[j] by {
        assert(a.line_marks()[i] <= a.line_marks()[j]);
    }
    assert forall|i: int|
        0 <= i < b.line_marks().len() implies (#[trigger] b.line_marks()[i] as int)
        < b.code().len() by {
        assert((a.line_marks()[i] as int) < a.code().len());
    }
}

/// In a sorted table, once an entry exceeds `p`, the count of entries at
/// most `p` is the count seen so far.
proof fn lemma_count_le_sorted_stops(s: Seq<usize>, p: int, i: int)
    requires
        0 <= i < s.len(),
        s[i] > p,
        forall|a: int, b: int| 0 <= a < b < s.len() ==> s[a] <= s[b],
    ensures
        count_le(s, p) == count_le(s.subrange(0, i), p),
    decreases s.len(),
{
    if i == s.len() - 1 {
        assert(s.drop_last() =~= s.subrange(0, i));
    } else {
        lemma_count_le_sorted_stops(s.drop_last(), p, i);
        assert(s.drop_last().subrange(0, i) =~= s.subrange(0, i));
        assert(s.last() >= s[i]);
    }
}

/// An offset at or beyond the end of the code cannot be a pending
/// placeholder.
pub proof fn lemma_pending_fresh(m: &MemorySlice, off: int)
    requires
        m.inv(),
        off >= m.code().len(),
    ensures
        !m.spec_pending().contains(off),
{
    if m.spec_pending().contains(off) {
        assert(off < m.code().len());
    }
}

/// After compilation leaves no pending placeholder, the operand of every
/// recorded jump reads as a non-`Panic` word.
pub proof fn lemma_all_jumps_patched(m: &MemorySlice)
    requires
        m.inv(),
        m.spec_pending().is_empty(),
    ensures
        forall|s: int|
            #[trigger] m.spec_jumps().contains(s) ==> is_jump_word(m.code()[s]) && m.code()[s + 1]
                != PANIC_WORD,
{
    assert forall|s: int| #[trigger] m.spec_jumps().contains(s) implies is_jump_word(m.code()[s])
        && m.code()[s + 1] != PANIC_WORD by {
        if m.spec_pending().contains(s + 1) {
            assert(false);
        }
    }
}

} // verus!
