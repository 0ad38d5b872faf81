//! The bytecode chunk: a flat instruction sequence, a parallel line table
//! (one source line per instruction, for diagnostics), and a constant pool.
//!
//! A chunk is append-only while the compiler builds it and is then handed
//! wholesale to the virtual machine. A `Constant` instruction stores an
//! index into the pool, so the instruction encoding is uniform in size.
use vstd::prelude::*;
use vstd::string::StringSliceAdditionalSpecFns;

verus! {

/// A numeric literal exactly as it was spelled in the source: one or more
/// digits, optionally followed by `.` and one or more digits.
///
/// The pipeline never converts a literal to machine floating point itself;
/// the spelling is kept so that the driver of the virtual machine can do
/// the conversion at the moment the constant is pushed.
#[derive(Clone, PartialEq, Eq, Debug)]
pub struct Numeral {
    pub text: Vec<u8>,
}

impl View for Numeral {
    type V = Seq<u8>;

    open spec fn view(&self) -> Seq<u8> {
        self.text@
    }
}

impl Numeral {
    pub fn new(text: Vec<u8>) -> (n: Numeral)
        ensures
            n@ == text@,
    {
        Numeral { text }
    }
}

/// One unit of executable bytecode. `Constant` carries an index into the
/// chunk's constant pool.
#[derive(Copy, Clone, PartialEq, Eq, Structural, Debug)]
pub enum OpCode {
    Constant(usize),
    Add,
    Subtract,
    Multiply,
    Divide,
    Negate,
    Return,
}

/// The mathematical content of a chunk: its instructions, its line table,
/// and the spellings of its constants.
pub ghost struct ChunkView {
    pub code: Seq<OpCode>,
    pub lines: Seq<usize>,
    pub constants: Seq<Seq<u8>>,
}

/// The compiled bytecode unit for one input.
pub struct Chunk {
    pub code: Vec<OpCode>,
    pub lines: Vec<usize>,
    pub constants: Vec<Numeral>,
}

impl View for Chunk {
    type V = ChunkView;

    open spec fn view(&self) -> ChunkView {
        ChunkView {
            code: self.code@,
            lines: self.lines@,
            constants: Seq::new(self.constants@.len(), |i: int| self.constants@[i]@),
        }
    }
}

/// Basic shape invariant of a chunk: the line table runs parallel to the
/// instruction sequence, and every `Constant` instruction refers into the
/// constant pool.
pub open spec fn chunk_wf(c: ChunkView) -> bool {
    &&& c.lines.len() == c.code.len()
    &&& forall|i: int|
        0 <= i < c.code.len() ==> (#[trigger] c.code[i] matches OpCode::Constant(j) ==> j
            < c.constants.len())
}

/// How many operands an instruction pops from the operand stack.
pub open spec fn op_pops(op: OpCode) -> int {
    match op {
        OpCode::Constant(_) => 0,
        OpCode::Negate => 1,
        OpCode::Add => 2,
        OpCode::Subtract => 2,
        OpCode::Multiply => 2,
        OpCode::Divide => 2,
        OpCode::Return => 1,
    }
}

/// The net change an instruction makes to the operand stack's depth.
pub open spec fn op_delta(op: OpCode) -> int {
    match op {
        OpCode::Constant(_) => 1,
        OpCode::Negate => 0,
        OpCode::Add => -1,
        OpCode::Subtract => -1,
        OpCode::Multiply => -1,
        OpCode::Divide => -1,
        OpCode::Return => -1,
    }
}

/// The operand stack's depth after the first `n` instructions of `code`
/// have executed, starting from an empty stack.
pub open spec fn stack_height(code: Seq<OpCode>, n: int) -> int
    decreases n,
{
    if n <= 0 {
        0
    } else {
        stack_height(code, n - 1) + op_delta(code[n - 1])
    }
}

/// A chunk the virtual machine may run: well formed, ending in its single
/// `Return`, with every instruction's operands present when it executes,
/// and exactly one value left for `Return` to report.
pub open spec fn chunk_runnable(c: ChunkView) -> bool {
    &&& chunk_wf(c)
    &&& c.code.len() >= 1
    &&& forall|i: int| 0 <= i < c.code.len() ==> ((c.code[i] is Return) <==> i == c.code.len() - 1)
    &&& forall|n: int| 0 <= n < c.code.len() ==> stack_height(c.code, n) >= op_pops(c.code[n])
    &&& stack_height(c.code, c.code.len() - 1) == 1
}

/// The first `n` instructions contribute the same stack heights in any
/// extension of the code sequence.
pub proof fn lemma_stack_height_prefix(a: Seq<OpCode>, b: Seq<OpCode>, n: int)
    requires
        n <= a.len(),
        a.len() <= b.len(),
        forall|i: int| 0 <= i < a.len() ==> a[i] == b[i],
    ensures
        stack_height(a, n) == stack_height(b, n),
    decreases n,
{
    if n > 0 {
        lemma_stack_height_prefix(a, b, n - 1);
    }
}

/// The decimal spelling of `n` (for `n < 0` this is never applied).
pub open spec fn spec_dec_digits(n: int) -> Seq<u8>
    decreases n,
{
    if n < 10 {
        seq![(48 + n) as u8]
    } else {
        spec_dec_digits(n / 10).push((48 + (n % 10)) as u8)
    }
}

/// Appends the decimal spelling of `n` to `out`.
pub fn push_dec(out: &mut Vec<u8>, n: usize)
    ensures
        final(out)@ == old(out)@ + spec_dec_digits(n as int),
    decreases n,
{
    if n < 10 {
        out.push((48 + n) as u8);
        assert(out@ =~= old(out)@ + spec_dec_digits(n as int));
    } else {
        push_dec(out, n / 10);
        out.push((48 + (n % 10)) as u8);
        assert(out@ =~= old(out)@ + spec_dec_digits(n as int));
    }
}

/// Appends the bytes of `s` to `out`.
pub fn push_text(out: &mut Vec<u8>, s: &str)
    ensures
        final(out)@ == old(out)@ + s.spec_bytes(),
{
    let bytes: &[u8] = s.as_bytes();
    out.extend_from_slice(bytes);
}

/// The mnemonic the disassembler prints for an instruction.
pub open spec fn spec_mnemonic(op: OpCode) -> Seq<u8> {
    match op {
        OpCode::Constant(_) => "OP_CONSTANT".spec_bytes(),
        OpCode::Add => "OP_ADD".spec_bytes(),
        OpCode::Subtract => "OP_SUBTRACT".spec_bytes(),
        OpCode::Multiply => "OP_MULT".spec_bytes(),
        OpCode::Divide => "OP_DIVIDE".spec_bytes(),
        OpCode::Negate => "OP_NEGATE".spec_bytes(),
        OpCode::Return => "OP_RETURN".spec_bytes(),
    }
}

/// The disassembler's line for the instruction at `offset`: the offset, the
/// source line (a continuation marker when it repeats the previous
/// instruction's line), and the mnemonic — for a constant, with the
/// literal's spelling.
pub open spec fn spec_inst_text(c: ChunkView, offset: int) -> Seq<u8> {
    spec_dec_digits(offset) + " ".spec_bytes() + (if offset > 0 && c.lines[offset] == c.lines[offset - 1] {
        "  ^ ".spec_bytes()
    } else {
        spec_dec_digits(c.lines[offset] as int) + " ".spec_bytes()
    }) + (match c.code[offset] {
        OpCode::Constant(j) => "OP_CONSTANT '".spec_bytes() + c.constants[j as int]
            + "'\n".spec_bytes(),
        op => spec_mnemonic(op) + "\n".spec_bytes(),
    })
}

/// The concatenated listing of the first `n` instructions.
pub open spec fn spec_listing(c: ChunkView, n: int) -> Seq<u8>
    decreases n,
{
    if n <= 0 {
        Seq::empty()
    } else {
        spec_listing(c, n - 1) + spec_inst_text(c, n - 1)
    }
}

/// The full disassembly: a header naming the chunk, then one line per
/// instruction.
pub open spec fn spec_disassembly(c: ChunkView, name: Seq<u8>) -> Seq<u8> {
    "== ".spec_bytes() + name + " ==\n".spec_bytes() + spec_listing(c, c.code.len() as int)
}

impl Chunk {
    pub fn new() -> (c: Chunk)
        ensures
            c@.code == Seq::<OpCode>::empty(),
            c@.lines == Seq::<usize>::empty(),
            c@.constants == Seq::<Seq<u8>>::empty(),
    {
        let c = Chunk { code: Vec::new(), lines: Vec::new(), constants: Vec::new() };
        assert(c@.constants =~= Seq::<Seq<u8>>::empty());
        c
    }

    /// Appends one instruction, tagged with the source line it came from.
    pub fn add_instr(&mut self, instr: OpCode, line: usize)
        ensures
            final(self)@.code == old(self)@.code.push(instr),
            final(self)@.lines == old(self)@.lines.push(line),
            final(self)@.constants == old(self)@.constants,
    {
        self.code.push(instr);
        self.lines.push(line);
        assert(self@.constants =~= old(self)@.constants);
    }

    /// Appends `constant` to the pool and a `Constant` instruction that
    /// refers to it.
    pub fn add_constant(&mut self, constant: Numeral, line: usize)
        ensures
            final(self)@.constants == old(self)@.constants.push(constant@),
            final(self)@.code == old(self)@.code.push(OpCode::Constant(old(self)@.constants.len() as usize)),
            final(self)@.lines == old(self)@.lines.push(line),
    {
        let idx: usize = self.constants.len();
        self.constants.push(constant);
        self.add_instr(OpCode::Constant(idx), line);
        assert(self@.constants =~= old(self)@.constants.push(self@.constants[old(self)@.constants.len() as int]));
    }

    /// Renders the listing line for the instruction at `offset`.
    pub fn disassemble_inst(&self, offset: usize) -> (out: Vec<u8>)
        requires
            chunk_wf(self@),
            offset < self@.code.len(),
        ensures
            out@ == spec_inst_text(self@, offset as int),
    {
        let mut out: Vec<u8> = Vec::new();
        push_dec(&mut out, offset);
        push_text(&mut out, " ");
        if offset > 0 && self.lines[offset] == self.lines[offset - 1] {
            push_text(&mut out, "  ^ ");
        } else {
            push_dec(&mut out, self.lines[offset]);
            push_text(&mut out, " ");
        }
        match self.code[offset] {
            OpCode::Constant(j) => {
                push_text(&mut out, "OP_CONSTANT '");
                out.extend_from_slice(self.constants[j].text.as_slice());
                push_text(&mut out, "'\n");
            },
            OpCode::Add => {
                push_text(&mut out, "OP_ADD");
                push_text(&mut out, "\n");
            },
            OpCode::Subtract => {
                push_text(&mut out, "OP_SUBTRACT");
                push_text(&mut out, "\n");
            },
            OpCode::Multiply => {
                push_text(&mut out, "OP_MULT");
                push_text(&mut out, "\n");
            },
            OpCode::Divide => {
                push_text(&mut out, "OP_DIVIDE");
                push_text(&mut out, "\n");
            },
            OpCode::Negate => {
                push_text(&mut out, "OP_NEGATE");
                push_text(&mut out, "\n");
            },
            OpCode::Return => {
                push_text(&mut out, "OP_RETURN");
                push_text(&mut out, "\n");
            },
        }
        assert(out@ =~= spec_inst_text(self@, offset as int));
        out
    }

    /// Renders the whole listing under a header naming the chunk.
    ///
    /// The listing is a function of the chunk and the name alone, so
    /// disassembling a chunk twice yields identical output
    /// (`lemma_disassembly_deterministic`).
    pub fn disassemble(&self, name: &str) -> (out: Vec<u8>)
        requires
            chunk_wf(self@),
        ensures
            out@ == spec_disassembly(self@, name.spec_bytes()),
    {
        let mut out: Vec<u8> = Vec::new();
        push_text(&mut out, "== ");
        push_text(&mut out, name);
        push_text(&mut out, " ==\n");
        let n: usize = self.code.len();
        assert(out@ =~= "== ".spec_bytes() + name.spec_bytes() + " ==\n".spec_bytes()
            + spec_listing(self@, 0));
        let mut i: usize = 0;
        while i < n
            invariant
                n == self@.code.len(),
                chunk_wf(self@),
                i <= n,
                out@ == "== ".spec_bytes() + name.spec_bytes() + " ==\n".spec_bytes()
                    + spec_listing(self@, i as int),
            decreases n - i,
        {
            let mut line: Vec<u8> = self.disassemble_inst(i);
            out.append(&mut line);
            assert(out@ =~= "== ".spec_bytes() + name.spec_bytes() + " ==\n".spec_bytes()
                + spec_listing(self@, (i + 1) as int));
            i = i + 1;
        }
        out
    }
}

/// Disassembling a chunk twice produces identical output: the listing is a
/// function of the chunk's contents and the name alone.
pub proof fn lemma_disassembly_deterministic(c: ChunkView, name: Seq<u8>, a: Seq<u8>, b: Seq<u8>)
    requires
        a == spec_disassembly(c, name),
        b == spec_disassembly(c, name),
    ensures
        a == b,
{
}

} // verus!
