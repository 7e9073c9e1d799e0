use vstd::prelude::*;
use vstd::std_specs::convert::IntoSpec;
use vstd::string::*;

use crate::bitwise;
use crate::bitwise::be24;
use crate::text::{decimal, padded, push_padded_decimal};

use super::opcodes::OpCode;
use super::value::Value;

verus! {

/// The largest number of constants that a chunk can hold: an index into
/// them has 24 bits.
pub const MAX_CONSTANTS: usize = 0x100_0000;

/// An entry of the line table: from this offset into the code on, the
/// instructions stand on this source line.
#[derive(Debug, Clone, Copy)]
pub struct LineInfo {
    /// offset into the code
    pub op_offset: usize,
    /// line number of the instruction at that offset
    pub line: usize,
}

/// A unit of bytecode: the code, the constants that it loads, and the table
/// that maps offsets into the code to source lines.
#[derive(Debug, Clone)]
pub struct Chunk {
    /// Instructions and their operands, byte by byte.
    code: Vec<u8>,
    constants: Vec<Value>,
    line_info: Vec<LineInfo>,
}

/// The mathematical model of a chunk.
pub struct ChunkView {
    pub code: Seq<u8>,
    pub constants: Seq<Value>,
    /// the line table, as pairs of an offset and a line number
    pub lines: Seq<(nat, nat)>,
}

/// An instruction as it is found in the code.
pub struct Decoded {
    pub op: OpCode,
    /// the index of the constant that the instruction loads, where it
    /// loads one
    pub index: Option<int>,
    /// the offset of the instruction that follows
    pub next: int,
}

/// The line of the last entry of a line table whose offset is no greater
/// than `offset`; line 1 where there is none.
pub open spec fn line_at(lines: Seq<(nat, nat)>, offset: nat) -> nat
    decreases lines.len(),
{
    if lines.len() == 0 {
        1
    } else if lines.last().0 <= offset {
        lines.last().1
    } else {
        line_at(lines.drop_last(), offset)
    }
}

/// Whether the offsets of a line table go strictly up.
pub open spec fn offsets_ascend(lines: Seq<(nat, nat)>) -> bool {
    forall|i: int, j: int| 0 <= i < j < lines.len() ==> lines[i].0 < lines[j].0
}

/// The bytes that load the constant of the given index: the short form
/// with one operand byte for an index below 256, the long form with the
/// index in three bytes, most significant first, otherwise.
pub open spec fn load_code(index: nat) -> Seq<u8> {
    if index < 256 {
        seq![OpCode::Load.byte(), index as u8]
    } else {
        seq![
            OpCode::LoadLong.byte(),
            ((index / 0x1_0000) % 0x100) as u8,
            ((index / 0x100) % 0x100) as u8,
            (index % 0x100) as u8,
        ]
    }
}

impl ChunkView {
    /// The line table starts with line 1 at offset 0 and its offsets go
    /// strictly up, and every index into the constants has 24 bits.
    pub open spec fn wf(self) -> bool {
        &&& self.lines.len() > 0
        &&& self.lines[0] == (0nat, 1nat)
        &&& offsets_ascend(self.lines)
        &&& self.constants.len() <= MAX_CONSTANTS
    }

    /// The source line of the instruction at an offset.
    pub open spec fn line_for(self, offset: nat) -> nat {
        line_at(self.lines, offset)
    }

    /// The instruction that starts at `ip`, where a known instruction with
    /// all its operand bytes stands there and the constant it loads exists.
    pub open spec fn instruction_at(self, ip: int) -> Option<Decoded> {
        if 0 <= ip < self.code.len() {
            match OpCode::of_byte(self.code[ip]) {
                None => None,
                Some(OpCode::Load) => if ip + 1 < self.code.len() && self.code[ip + 1]
                    < self.constants.len() {
                    Some(
                        Decoded {
                            op: OpCode::Load,
                            index: Some(self.code[ip + 1] as int),
                            next: ip + 2,
                        },
                    )
                } else {
                    None
                },
                Some(OpCode::LoadLong) => if ip + 3 < self.code.len() && be24(
                    self.code[ip + 1],
                    self.code[ip + 2],
                    self.code[ip + 3],
                ) < self.constants.len() {
                    Some(
                        Decoded {
                            op: OpCode::LoadLong,
                            index: Some(
                                be24(self.code[ip + 1], self.code[ip + 2], self.code[ip + 3]),
                            ),
                            next: ip + 4,
                        },
                    )
                } else {
                    None
                },
                Some(op) => Some(Decoded { op, index: None, next: ip + 1 }),
            }
        } else {
            None
        }
    }

    /// Whether the code from `ip` on is a sequence of whole instructions.
    pub open spec fn executable_from(self, ip: int) -> bool
        decreases self.code.len() - ip,
    {
        if ip == self.code.len() {
            true
        } else {
            match self.instruction_at(ip) {
                Some(d) => self.executable_from(d.next),
                None => false,
            }
        }
    }

    /// Whether the code is a sequence of whole instructions: every
    /// instruction is followed by the operand bytes it takes, and every
    /// constant that is loaded exists.
    pub open spec fn executable(self) -> bool {
        self.executable_from(0)
    }

    /// The constant that the load instruction at `ip` loads.
    pub open spec fn loaded_at(self, ip: int) -> Option<Value> {
        match self.instruction_at(ip) {
            Some(d) => match d.index {
                Some(i) => Some(self.constants[i]),
                None => None,
            },
            None => None,
        }
    }
}

/// An instruction of a chunk, as a listing shows it.
#[derive(Debug, Clone, Copy)]
pub struct Instruction {
    /// the offset at which the instruction starts
    pub offset: usize,
    /// the source line it stands on
    pub line: usize,
    pub op: OpCode,
    /// the constant that the instruction loads, where it loads one
    pub operand: Option<Value>,
    /// the offset of the instruction that follows
    pub next: usize,
}

/// The line of a listing: the offset in six places, the source line in five
/// places, the name of the instruction and, in parentheses, the text of
/// its operand where it has one.
pub open spec fn listing_line(
    offset: nat,
    line: nat,
    op: OpCode,
    operand: Option<Seq<char>>,
) -> Seq<char> {
    "0x"@ + padded(decimal(offset), 6, '0') + " "@ + padded(decimal(line), 5, ' ') + "\t"@
        + op.mnemonic() + match operand {
        Some(text) => " ("@ + text + ")"@,
        None => Seq::empty(),
    }
}

impl Instruction {
    /// The line of a listing for the instruction, the text of its operand
    /// being given where it has one.
    pub fn render(&self, operand: Option<&str>) -> (r: String)
        ensures
            r@ == listing_line(
                self.offset as nat,
                self.line as nat,
                self.op,
                match operand {
                    Some(s) => Some(s@),
                    None => None,
                },
            ),
    {
        let mut s = String::from_str("0x");
        push_padded_decimal(&mut s, self.offset as u64, 6, true);
        s.append(" ");
        push_padded_decimal(&mut s, self.line as u64, 5, false);
        s.append("\t");
        s.append(self.op.as_str());
        match operand {
            Some(text) => {
                s.append(" (");
                s.append(text);
                s.append(")");
            },
            None => {
                assert(s@ + Seq::<char>::empty() =~= s@);
            },
        }
        s
    }
}

/// In a line table whose offsets go up, the entry at `k` gives the line of
/// an offset where the entry is at or before it and the next entry, if
/// there is one, is after it.
pub proof fn lemma_line_at(lines: Seq<(nat, nat)>, offset: nat, k: int)
    requires
        offsets_ascend(lines),
        0 <= k < lines.len(),
        lines[k].0 <= offset,
        k + 1 < lines.len() ==> lines[k + 1].0 > offset,
    ensures
        line_at(lines, offset) == lines[k].1,
    decreases lines.len(),
{
    if lines.last().0 <= offset {
        if k + 1 < lines.len() {
            assert(lines[k + 1].0 <= lines[lines.len() - 1].0);
        }
    } else {
        let rest = lines.drop_last();
        assert(offsets_ascend(rest)) by {
            assert forall|i: int, j: int| 0 <= i < j < rest.len() implies rest[i].0
                < rest[j].0 by {
                assert(rest[i] == lines[i]);
                assert(rest[j] == lines[j]);
            }
        }
        assert(rest[k] == lines[k]);
        if k + 1 < rest.len() {
            assert(rest[k + 1] == lines[k + 1]);
        }
        lemma_line_at(rest, offset, k);
    }
}

/// The line of an offset is that of the entry with the greatest offset
/// that is no greater than it.
pub proof fn lemma_line_at_is_greatest(lines: Seq<(nat, nat)>, offset: nat)
    requires
        lines.len() > 0,
        lines[0].0 <= offset,
    ensures
        exists|k: int|
            0 <= k < lines.len() && (#[trigger] lines[k]).0 <= offset && line_at(lines, offset)
                == lines[k].1 && forall|j: int|
                k < j < lines.len() ==> (#[trigger] lines[j]).0 > offset,
    decreases lines.len(),
{
    if lines.last().0 <= offset {
        let k = lines.len() - 1;
        assert(lines[k].0 <= offset);
    } else {
        let rest = lines.drop_last();
        assert(rest.len() > 0);
        assert(rest[0] == lines[0]);
        lemma_line_at_is_greatest(rest, offset);
        let k = choose|k: int|
            0 <= k < rest.len() && (#[trigger] rest[k]).0 <= offset && line_at(rest, offset)
                == rest[k].1 && forall|j: int|
                k < j < rest.len() ==> (#[trigger] rest[j]).0 > offset;
        assert(lines[k] == rest[k]);
        assert forall|j: int| k < j < lines.len() implies (#[trigger] lines[j]).0 > offset by {
            if j < rest.len() {
                assert(lines[j] == rest[j]);
            }
        }
    }
}

/// `From<T> for T` of the standard library: the conversion of a value to
/// its own type returns the value unchanged.
pub assume_specification<T>[ <T as From<T>>::from ](t: T) -> (r: T)
    ensures
        r == t,
;

impl View for Chunk {
    type V = ChunkView;

    closed spec fn view(&self) -> ChunkView {
        ChunkView {
            code: self.code@,
            constants: self.constants@,
            lines: Seq::new(
                self.line_info@.len(),
                |i: int| (self.line_info@[i].op_offset as nat, self.line_info@[i].line as nat),
            ),
        }
    }
}

impl Chunk {
    /// An empty chunk, whose line table says that line 1 begins at offset 0.
    pub fn new() -> (r: Self)
        ensures
            r@.wf(),
            r@.code == Seq::<u8>::empty(),
            r@.constants == Seq::<Value>::empty(),
            r@.lines == seq![(0nat, 1nat)],
    {
        let mut line_info: Vec<LineInfo> = Vec::new();
        line_info.push(LineInfo { op_offset: 0, line: 1 });
        let r = Self { code: Vec::new(), constants: Vec::new(), line_info };
        assert(r@.lines =~= seq![(0nat, 1nat)]);
        r
    }

    /// The code, byte by byte.
    pub fn code(&self) -> (r: &Vec<u8>)
        ensures
            r@ == self@.code,
    {
        &self.code
    }

    /// The constants, in the order in which they were written.
    pub fn constants(&self) -> (r: &Vec<Value>)
        ensures
            r@ == self@.constants,
    {
        &self.constants
    }

    /// Records that the next source line begins at `offset`.
    pub fn new_line(&mut self, offset: usize)
        requires
            old(self)@.wf(),
            old(self)@.lines.last().0 < offset,
            old(self)@.lines.last().1 < usize::MAX,
        ensures
            final(self)@.wf(),
            final(self)@.code == old(self)@.code,
            final(self)@.constants == old(self)@.constants,
            final(self)@.lines == old(self)@.lines.push(
                (offset as nat, old(self)@.lines.last().1 + 1),
            ),
    {
        let ghost before = self@.lines;
        let current_line = self.line_info[self.line_info.len() - 1].line;
        self.line_info.push(LineInfo { line: current_line + 1, op_offset: offset });
        proof {
            assert(self@.lines =~= before.push((offset as nat, before.last().1 + 1)));
            assert forall|i: int, j: int| 0 <= i < j < self@.lines.len() implies self@.lines[i].0
                < self@.lines[j].0 by {
                if j < before.len() {
                    assert(self@.lines[i] == before[i]);
                    assert(self@.lines[j] == before[j]);
                } else {
                    assert(self@.lines[i] == before[i]);
                    if i < before.len() - 1 {
                        assert(before[i].0 < before[before.len() - 1].0);
                    }
                }
            }
            assert(self@.lines[0] == before[0]);
        }
    }

    /// Appends one byte to the code: an instruction or an operand.
    pub fn write<B>(&mut self, byte: B) where B: Into<u8>
        ensures
            exists|b: u8|
                call_ensures(B::into, (byte,), b) && final(self)@.code == #[trigger] old(
                    self,
                )@.code.push(b),
            B::obeys_into_spec() ==> final(self)@.code == old(self)@.code.push(byte.into_spec()),
            final(self)@.constants == old(self)@.constants,
            final(self)@.lines == old(self)@.lines,
    {
        let b: u8 = byte.into();
        self.code.push(b);
        assert(call_ensures(B::into, (byte,), b));
        assert(self@.code == old(self)@.code.push(b));
    }

    /// Appends one byte to the code.
    pub fn write_byte(&mut self, byte: u8)
        ensures
            final(self)@.code == old(self)@.code.push(byte),
            final(self)@.constants == old(self)@.constants,
            final(self)@.lines == old(self)@.lines,
    {
        self.code.push(byte)
    }

    /// Appends the three low bytes of `val` to the code, most significant
    /// first.
    fn write_24b(&mut self, val: u32)
        requires
            val < 0x100_0000,
        ensures
            final(self)@.code == old(self)@.code + seq![
                ((val as nat / 0x1_0000) % 0x100) as u8,
                ((val as nat / 0x100) % 0x100) as u8,
                (val as nat % 0x100) as u8,
            ],
            final(self)@.constants == old(self)@.constants,
            final(self)@.lines == old(self)@.lines,
    {
        let (_b4, b3, b2, b1) = bitwise::get_bytes(val);
        self.write_byte(b3);
        self.write_byte(b2);
        self.write_byte(b1);
        assert(self@.code =~= old(self)@.code + seq![b3, b2, b1]);
    }

    /// Adds a constant and appends the instruction that loads it: `Load`
    /// with the index in one byte for the first 256 constants, `LoadLong`
    /// with the index in three bytes after that.
    pub fn write_constant(&mut self, value: Value)
        requires
            old(self)@.wf(),
            old(self)@.constants.len() < MAX_CONSTANTS,
        ensures
            final(self)@.wf(),
            final(self)@.constants == old(self)@.constants.push(value),
            final(self)@.code == old(self)@.code + load_code(old(self)@.constants.len()),
            final(self)@.lines == old(self)@.lines,
            final(self)@.loaded_at(old(self)@.code.len() as int) == Some(value),
            old(self)@.executable() ==> final(self)@.executable(),
    {
        let ghost before = self@;
        let idx = self.write_constant_aux(value);
        if idx < 256 {
            self.write_byte(OpCode::Load.to_byte());
            self.write_byte(idx as u8);
            assert(self@.code =~= before.code + load_code(before.constants.len()));
        } else {
            self.write_byte(OpCode::LoadLong.to_byte());
            self.write_24b(idx);
            proof {
                bitwise::lemma_bytes_round_trip(idx);
                assert(self@.code =~= before.code + load_code(before.constants.len()));
            }
        }
        proof {
            let at = before.code.len() as int;
            assert(self@.code[at] == load_code(before.constants.len())[0]);
            assert(self@.code[at + 1] == load_code(before.constants.len())[1]);
            if idx >= 256 {
                assert(self@.code[at + 2] == load_code(before.constants.len())[2]);
                assert(self@.code[at + 3] == load_code(before.constants.len())[3]);
                bitwise::lemma_bytes_round_trip(idx);
            }
            assert(self@.code.subrange(0, at) =~= before.code);
            let d = self@.instruction_at(at)->0;
            assert(self@.instruction_at(at) is Some);
            assert(d.next == self@.code.len());
            assert(self@.executable_from(d.next));
            assert(self@.executable_from(at));
            if before.executable() {
                lemma_executable_extends(before, self@, 0);
            }
        }
    }

    /// Adds a constant and returns the index at which it stands.
    fn write_constant_aux(&mut self, value: Value) -> (idx: u32)
        requires
            old(self)@.constants.len() < MAX_CONSTANTS,
        ensures
            idx == old(self)@.constants.len(),
            final(self)@.constants == old(self)@.constants.push(value),
            final(self)@.code == old(self)@.code,
            final(self)@.lines == old(self)@.lines,
    {
        self.constants.push(value);
        (self.constants.len() - 1) as u32
    }

    /// Whether the code is a sequence of whole instructions.
    pub fn is_executable(&self) -> (r: bool)
        ensures
            r == self@.executable(),
    {
        let mut ip: usize = 0;
        while ip < self.code.len()
            invariant
                0 <= ip <= self.code.len(),
                self@.executable() == self@.executable_from(ip as int),
            decreases self.code.len() - ip,
        {
            match self.decode(ip) {
                Some((_, _, next)) => {
                    ip = next;
                },
                None => {
                    return false;
                },
            }
        }
        true
    }

    /// The instruction that starts at `ip`: its kind, the index of the
    /// constant it loads where it loads one, and the offset of the
    /// instruction that follows; nothing where no whole instruction stands
    /// there.
    pub fn decode(&self, ip: usize) -> (r: Option<(OpCode, Option<usize>, usize)>)
        ensures
            match r {
                Some((op, index, next)) => self@.instruction_at(ip as int) == Some(
                    Decoded {
                        op,
                        index: match index {
                            Some(i) => Some(i as int),
                            None => None,
                        },
                        next: next as int,
                    },
                ),
                None => self@.instruction_at(ip as int) is None,
            },
    {
        if ip >= self.code.len() {
            return None;
        }
        let op = match OpCode::from_byte(self.code[ip]) {
            Some(op) => op,
            None => {
                return None;
            },
        };
        match op {
            OpCode::Load => {
                if self.code.len() - ip < 2 {
                    return None;
                }
                let index = self.code[ip + 1] as usize;
                if index >= self.constants.len() {
                    return None;
                }
                Some((op, Some(index), ip + 2))
            },
            OpCode::LoadLong => {
                if self.code.len() - ip < 4 {
                    return None;
                }
                let bytes = [self.code[ip + 1], self.code[ip + 2], self.code[ip + 3]];
                let index = bitwise::u32_from_bytes(&bytes) as usize;
                if index >= self.constants.len() {
                    return None;
                }
                Some((op, Some(index), ip + 4))
            },
            _ => Some((op, None, ip + 1)),
        }
    }

    /// The constant that the load instruction at `offset` loads, and the
    /// number of operand bytes of that instruction.
    pub fn read_constant(&self, offset: usize) -> (r: Option<(Value, usize)>)
        ensures
            match self@.loaded_at(offset as int) {
                Some(v) => r == Some(
                    (v, self@.instruction_at(offset as int)->0.op.operand_len() as usize),
                ),
                None => r is None,
            },
    {
        match self.decode(offset) {
            Some((op, Some(index), _)) => {
                let width: usize = match op {
                    OpCode::Load => 1,
                    _ => 3,
                };
                Some((self.constants[index], width))
            },
            _ => None,
        }
    }

    /// Lists the instructions of the chunk in order.
    pub fn disassemble(&self) -> (r: Vec<Instruction>)
        requires
            self@.wf(),
            self@.executable(),
        ensures
            listing(self@, 0, Seq::empty()) == instruction_views(r@),
    {
        let mut out: Vec<Instruction> = Vec::new();
        let mut i: usize = 0;
        assert(instruction_views(out@) =~= Seq::empty());
        while i < self.code.len()
            invariant
                self@.wf(),
                0 <= i <= self.code.len(),
                self@.executable_from(i as int),
                listing(self@, i as int, instruction_views(out@)) == listing(
                    self@,
                    0,
                    Seq::empty(),
                ),
            decreases self.code.len() - i,
        {
            let instruction = self.disassembleInstruction(i);
            assert(instruction_views(out@.push(instruction)) =~= instruction_views(out@).push(
                instruction@,
            ));
            out.push(instruction);
            i = instruction.next;
        }
        out
    }

    /// The instruction that starts at `idx`, as a listing shows it.
    #[allow(non_snake_case)]
    pub fn disassembleInstruction(&self, idx: usize) -> (r: Instruction)
        requires
            self@.wf(),
            self@.instruction_at(idx as int) is Some,
        ensures
            r@ == listed(self@, idx as int),
            idx < r.next <= self@.code.len(),
    {
        let line = self.line_for(idx);
        let (op, index, next) = self.decode(idx).unwrap();
        let operand = match index {
            Some(i) => Some(self.constants[i]),
            None => None,
        };
        Instruction { offset: idx, line, op, operand, next }
    }

    /// The source line of the instruction at `offset`.
    pub fn line_for(&self, offset: usize) -> (line: usize)
        requires
            self@.wf(),
        ensures
            line == self@.line_for(offset as nat),
    {
        self.get_line_info_from_offset(offset).line
    }

    /// The entry of the line table with the greatest offset that is no
    /// greater than `offset`.
    fn get_line_info_from_offset(&self, offset: usize) -> (r: &LineInfo)
        requires
            self@.wf(),
        ensures
            r.line == line_at(self@.lines, offset as nat),
            r.op_offset <= offset,
    {
        let mut low: usize = 0;
        let mut high: usize = self.line_info.len();
        while low < high
            invariant
                self@.wf(),
                0 <= low <= high <= self.line_info.len(),
                forall|i: int| 0 <= i < low ==> (#[trigger] self@.lines[i]).0 <= offset,
                forall|i: int|
                    high <= i < self.line_info.len() ==> (#[trigger] self@.lines[i]).0 > offset,
            decreases high - low,
        {
            let mid = low + (high - low) / 2;
            if self.line_info[mid].op_offset <= offset {
                proof {
                    assert forall|i: int| 0 <= i < mid + 1 implies (#[trigger] self@.lines[i]).0
                        <= offset by {
                        if i < mid {
                            assert(self@.lines[i].0 < self@.lines[mid as int].0);
                        }
                    }
                }
                low = mid + 1;
            } else {
                proof {
                    assert forall|i: int| mid <= i < self.line_info.len() implies (
                    #[trigger] self@.lines[i]).0 > offset by {
                        if i > mid {
                            assert(self@.lines[mid as int].0 < self@.lines[i].0);
                        }
                    }
                }
                high = mid;
            }
        }
        proof {
            if low == 0 {
                assert(self@.lines[0].0 > offset);
            }
            lemma_line_at(self@.lines, offset as nat, low - 1);
        }
        &self.line_info[low - 1]
    }
}

impl View for Instruction {
    type V = InstructionView;

    open spec fn view(&self) -> InstructionView {
        InstructionView {
            offset: self.offset as nat,
            line: self.line as nat,
            op: self.op,
            operand: self.operand,
            next: self.next as nat,
        }
    }
}

/// The mathematical model of a listed instruction.
pub struct InstructionView {
    pub offset: nat,
    pub line: nat,
    pub op: OpCode,
    pub operand: Option<Value>,
    pub next: nat,
}

/// The models of a sequence of listed instructions, in order.
pub open spec fn instruction_views(v: Seq<Instruction>) -> Seq<InstructionView> {
    Seq::new(v.len(), |i: int| v[i]@)
}

/// The instruction that starts at `ip`, as a listing shows it: with its
/// offset, its source line and the constant that it loads.
pub open spec fn listed(chunk: ChunkView, ip: int) -> InstructionView
    recommends
        chunk.instruction_at(ip) is Some,
{
    let d = chunk.instruction_at(ip)->0;
    InstructionView {
        offset: ip as nat,
        line: chunk.line_for(ip as nat),
        op: d.op,
        operand: chunk.loaded_at(ip),
        next: d.next as nat,
    }
}

/// The instructions from `ip` to the end of the code, appended to `acc`.
pub open spec fn listing(chunk: ChunkView, ip: int, acc: Seq<InstructionView>) -> Seq<
    InstructionView,
>
    decreases chunk.code.len() - ip,
{
    match chunk.instruction_at(ip) {
        Some(d) => listing(chunk, d.next, acc.push(listed(chunk, ip))),
        None => acc,
    }
}

/// Code that is a sequence of whole instructions stays one where bytes
/// and constants are appended and the whole ends at an instruction
/// boundary again.
pub proof fn lemma_executable_extends(before: ChunkView, after: ChunkView, ip: int)
    requires
        0 <= ip <= before.code.len(),
        before.executable_from(ip),
        before.code.len() <= after.code.len(),
        after.code.subrange(0, before.code.len() as int) == before.code,
        before.constants.len() <= after.constants.len(),
        after.executable_from(before.code.len() as int),
    ensures
        after.executable_from(ip),
    decreases before.code.len() - ip,
{
    if ip < before.code.len() {
        let d = before.instruction_at(ip)->0;
        assert forall|k: int| 0 <= k < before.code.len() implies after.code[k]
            == before.code[k] by {
            assert(after.code.subrange(0, before.code.len() as int)[k] == after.code[k]);
        }
        assert(after.instruction_at(ip) == Some(d));
        lemma_executable_extends(before, after, d.next);
    }
}

/// Code that is a sequence of whole instructions stays one where an
/// instruction without operands is appended.
pub proof fn lemma_executable_with_one_more(before: ChunkView, after: ChunkView, op: OpCode)
    requires
        before.executable(),
        op.operand_len() == 0,
        after.code == before.code.push(op.byte()),
        after.constants == before.constants,
    ensures
        after.executable(),
{
    let at = before.code.len() as int;
    assert(after.code.subrange(0, at) =~= before.code);
    assert(after.code[at] == op.byte());
    assert(OpCode::of_byte(op.byte()) == Some(op));
    assert(after.instruction_at(at) == Some(Decoded { op, index: None, next: at + 1 }));
    assert(after.executable_from(at + 1));
    assert(after.executable_from(at));
    lemma_executable_extends(before, after, 0);
}

} // verus!
