//! The stack virtual machine.
//!
//! The machine owns one chunk at a time, an instruction pointer and an
//! operand stack. It never computes on floating point itself: a [`Value`]
//! is the 64-bit pattern of a double-precision number, and every operation
//! whose result depends on floating-point arithmetic — converting a
//! literal's spelling, negating, or combining two operands — is handed to
//! the machine's driver as a [`StepEvent`]. The driver computes the number
//! and hands the pattern back through [`VirtualMachine::push_result`].
//! Everything the machine itself decides — instruction fetch, stack
//! discipline, and termination — is verified: on a runnable chunk the
//! stack never underflows, and when `Return` reports the result the stack
//! is empty again, so nothing leaks into the next input's run.
use vstd::prelude::*;
use vstd::string::StringSliceAdditionalSpecFns;

use crate::compiler::{Compiler, Diagnostic};
use crate::op_code::{chunk_runnable, op_pops, stack_height, Chunk, OpCode};

verus! {

/// The overall outcome of compiling and running one input.
#[derive(Copy, Clone, PartialEq, Eq, Structural, Debug)]
pub enum InterpretResult {
    OK,
    CompileErr,
    RuntimeErr,
}

/// A runtime value: the 64-bit pattern of a double-precision number. The
/// machine moves these between the constant pool and the operand stack but
/// never looks inside them.
pub type Value = u64;

/// What one `step` call asks of the machine's driver, or reports.
pub enum StepEvent {
    /// The spelling of the literal to convert and push (via `push_result`).
    Constant(Vec<u8>),
    /// The operand to negate; the result is handed back via `push_result`.
    Negate(Value),
    /// The operation and its left and right operands; the result is handed
    /// back via `push_result`.
    Binary(OpCode, Value, Value),
    /// `Return` executed: the run is over and this is its result.
    Finished(Value),
}

/// The stack virtual machine; long-lived in interactive mode, its chunk
/// replaced wholesale for each input.
pub struct VirtualMachine {
    pub curr_chunk: Option<Chunk>,
    pub instruction_ptr: usize,
    pub stack: Vec<Value>,
    pub pending: bool,
    pub finished: bool,
}

impl VirtualMachine {
    /// The machine's invariant: the loaded chunk is runnable, the
    /// instruction pointer is in bounds, and the operand stack holds
    /// exactly the values the executed prefix of the code put there —
    /// minus the operands of a request that awaits its `push_result`.
    pub open spec fn wf(self) -> bool {
        match self.curr_chunk {
            Option::None => !self.pending,
            Option::Some(c) => {
                &&& chunk_runnable(c@)
                &&& if self.finished {
                    &&& !self.pending
                    &&& self.stack@.len() == 0
                } else if self.pending {
                    &&& self.instruction_ptr < c@.code.len()
                    &&& !(c@.code[self.instruction_ptr as int] is Return)
                    &&& self.stack@.len() == stack_height(
                        c@.code,
                        self.instruction_ptr + 1,
                    ) - 1
                } else {
                    &&& self.instruction_ptr < c@.code.len()
                    &&& self.stack@.len() == stack_height(c@.code, self.instruction_ptr as int)
                }
            },
        }
    }

    /// A fresh machine with no chunk loaded and an empty operand stack.
    pub fn new() -> (vm: VirtualMachine)
        ensures
            vm.wf(),
            vm.curr_chunk is None,
            vm.instruction_ptr == 0,
            vm.stack@.len() == 0,
            !vm.pending,
            !vm.finished,
    {
        VirtualMachine {
            curr_chunk: None,
            instruction_ptr: 0,
            stack: Vec::new(),
            pending: false,
            finished: false,
        }
    }

    pub fn is_finished(&self) -> (r: bool)
        ensures
            r == self.finished,
    {
        self.finished
    }

    pub fn is_pending(&self) -> (r: bool)
        ensures
            r == self.pending,
    {
        self.pending
    }

    pub fn has_chunk(&self) -> (r: bool)
        ensures
            r == (self.curr_chunk is Some),
    {
        match &self.curr_chunk {
            Option::Some(_) => true,
            Option::None => false,
        }
    }

    /// Replaces the machine's chunk wholesale and resets the instruction
    /// pointer and the operand stack, provided the chunk is runnable; a
    /// chunk that is not runnable is refused and nothing is loaded.
    ///
    /// The machine's state after a successful load is a function of the
    /// loaded chunk alone, so consecutive inputs run independently
    /// (`lemma_runs_independent`).
    pub fn load(&mut self, chunk: Chunk) -> (ok: bool)
        ensures
            final(self).wf(),
            ok == chunk_runnable(chunk@),
            ok ==> {
                &&& final(self).curr_chunk is Some
                &&& final(self).curr_chunk.unwrap()@ == chunk@
                &&& final(self).instruction_ptr == 0
                &&& final(self).stack@.len() == 0
                &&& !final(self).pending
                &&& !final(self).finished
            },
            !ok ==> final(self).curr_chunk is None,
    {
        let ok = chunk_runnable_check(&chunk);
        if ok {
            self.curr_chunk = Some(chunk);
            self.instruction_ptr = 0;
            self.stack = Vec::new();
            self.pending = false;
            self.finished = false;
        } else {
            self.curr_chunk = None;
            self.pending = false;
            self.finished = false;
        }
        ok
    }

    /// Executes the instruction under the instruction pointer, far enough
    /// to say what the driver must do: push a converted constant, compute
    /// a negation or a binary operation, or accept the run's result.
    pub fn step(&mut self) -> (ev: StepEvent)
        requires
            old(self).wf(),
            old(self).curr_chunk is Some,
            !old(self).finished,
            !old(self).pending,
        ensures
            final(self).wf(),
            final(self).curr_chunk == old(self).curr_chunk,
            final(self).instruction_ptr == old(self).instruction_ptr,
            ({
                let c = old(self).curr_chunk.unwrap()@;
                let ip = old(self).instruction_ptr as int;
                &&& (c.code[ip] matches OpCode::Constant(j) ==> {
                    &&& ev matches StepEvent::Constant(t) && t@ == c.constants[j as int]
                    &&& final(self).pending
                    &&& !final(self).finished
                    &&& final(self).stack@ == old(self).stack@
                })
                &&& (c.code[ip] is Negate ==> {
                    &&& ev matches StepEvent::Negate(a) && a == old(self).stack@.last()
                    &&& final(self).pending
                    &&& !final(self).finished
                    &&& final(self).stack@ == old(self).stack@.drop_last()
                })
                &&& ((c.code[ip] is Add || c.code[ip] is Subtract || c.code[ip] is Multiply
                    || c.code[ip] is Divide) ==> {
                    &&& ev matches StepEvent::Binary(op, a, b) && op == c.code[ip] && b == old(
                        self,
                    ).stack@.last() && a == old(self).stack@.drop_last().last()
                    &&& final(self).pending
                    &&& !final(self).finished
                    &&& final(self).stack@ == old(self).stack@.drop_last().drop_last()
                })
                &&& (c.code[ip] is Return ==> {
                    &&& ev matches StepEvent::Finished(v) && v == old(self).stack@.last()
                    &&& final(self).finished
                    &&& !final(self).pending
                    &&& final(self).stack@.len() == 0
                })
            }),
    {
        let ghost c = old(self).curr_chunk.unwrap()@;
        let ghost ip_g = old(self).instruction_ptr as int;
        let op: OpCode = match &self.curr_chunk {
            Option::Some(ch) => ch.code[self.instruction_ptr],
            Option::None => {
                proof {
                    assert(false);
                }
                OpCode::Return
            },
        };
        match op {
            OpCode::Constant(j) => {
                let text: Vec<u8> = match &self.curr_chunk {
                    Option::Some(ch) => vstd::slice::slice_to_vec(ch.constants[j].text.as_slice()),
                    Option::None => Vec::new(),
                };
                self.pending = true;
                StepEvent::Constant(text)
            },
            OpCode::Negate => {
                assert(self.stack@.len() >= 1) by {
                    assert(stack_height(c.code, ip_g) >= op_pops(c.code[ip_g]));
                };
                let a = self.stack.pop().unwrap();
                self.pending = true;
                StepEvent::Negate(a)
            },
            OpCode::Return => {
                assert(self.stack@.len() == 1) by {
                    assert(forall|i: int|
                        0 <= i < c.code.len() ==> ((c.code[i] is Return) <==> i == c.code.len()
                            - 1));
                    assert(ip_g == c.code.len() - 1);
                    assert(stack_height(c.code, c.code.len() - 1) == 1);
                };
                let v = self.stack.pop().unwrap();
                self.finished = true;
                StepEvent::Finished(v)
            },
            _ => {
                assert(self.stack@.len() >= 2) by {
                    assert(stack_height(c.code, ip_g) >= op_pops(c.code[ip_g]));
                };
                let b = self.stack.pop().unwrap();
                let a = self.stack.pop().unwrap();
                self.pending = true;
                StepEvent::Binary(op, a, b)
            },
        }
    }

    /// Compiles one input into a fresh chunk and, on success, loads it
    /// and resets the instruction pointer and the operand stack, ready for
    /// the driver to step through. Success, the loaded chunk, and the
    /// failure diagnostic are all pinned by the source text alone through
    /// `spec_compile`. On a compile error nothing is executed and the
    /// machine's prior state is left untouched; the single diagnostic is
    /// returned for the caller to report.
    pub fn interpret(&mut self, content: &str) -> (r: (InterpretResult, Vec<Diagnostic>))
        requires
            old(self).wf(),
            content.spec_bytes().len() < usize::MAX,
        ensures
            final(self).wf(),
            r.0 is OK || r.0 is CompileErr,
            (r.0 is OK) <==> r.1@.len() == 0,
            (r.0 is CompileErr) <==> r.1@.len() == 1,
            r.0 is CompileErr ==> *final(self) == *old(self),
            r.0 is OK ==> {
                &&& final(self).curr_chunk is Some
                &&& final(self).instruction_ptr == 0
                &&& final(self).stack@.len() == 0
                &&& !final(self).pending
                &&& !final(self).finished
            },
            (r.0 is OK) <==> crate::compiler::spec_compile(content.spec_bytes()).ok,
            r.0 is OK ==> final(self).curr_chunk.unwrap()@.code == crate::compiler::spec_compile(
                content.spec_bytes(),
            ).st.code,
            r.0 is OK ==> final(self).curr_chunk.unwrap()@.lines == crate::compiler::spec_compile(
                content.spec_bytes(),
            ).st.lines,
            r.0 is OK ==> final(self).curr_chunk.unwrap()@.constants
                == crate::compiler::spec_compile(content.spec_bytes()).st.consts,
            r.0 is CompileErr ==> (r.1@.len() == 1 && crate::compiler::diag_matches(
                r.1@[0],
                crate::compiler::spec_compile(content.spec_bytes()).diag,
            )),
    {
        let mut chunk = Chunk::new();
        let mut compiler = Compiler {  };
        let (res, diags) = compiler.compile(content, &mut chunk);
        if res == InterpretResult::CompileErr {
            return (InterpretResult::CompileErr, diags);
        }
        let ok = self.load(chunk);
        assert(ok);
        (InterpretResult::OK, diags)
    }

    /// Accepts the value the driver computed for the pending request,
    /// pushes it, and moves to the next instruction.
    pub fn push_result(&mut self, v: Value)
        requires
            old(self).wf(),
            old(self).pending,
        ensures
            final(self).wf(),
            final(self).curr_chunk == old(self).curr_chunk,
            final(self).stack@ == old(self).stack@.push(v),
            final(self).instruction_ptr == old(self).instruction_ptr + 1,
            !final(self).pending,
            !final(self).finished,
    {
        let ghost c = old(self).curr_chunk.unwrap()@;
        let ghost ip_g = old(self).instruction_ptr as int;
        assert(self.instruction_ptr < c.code.len() - 1) by {
            assert(forall|i: int|
                0 <= i < c.code.len() ==> ((c.code[i] is Return) <==> i == c.code.len() - 1));
        };
        let n: usize = match &self.curr_chunk {
            Option::Some(ch) => ch.code.len(),
            Option::None => 0,
        };
        assert(self.instruction_ptr < n);
        self.stack.push(v);
        self.instruction_ptr = self.instruction_ptr + 1;
        self.pending = false;
        self.finished = false;
    }
}

/// Whether a chunk may be handed to the machine: an executable check of
/// [`chunk_runnable`].
pub fn chunk_runnable_check(c: &Chunk) -> (r: bool)
    ensures
        r == chunk_runnable(c@),
{
    let n: usize = c.code.len();
    if c.lines.len() != n {
        return false;
    }
    if n == 0 {
        return false;
    }
    let mut h: i128 = 0;
    let mut i: usize = 0;
    while i < n
        invariant
            n == c@.code.len(),
            c@.lines.len() == n,
            i <= n,
            h == stack_height(c@.code, i as int),
            0 <= h <= i,
            forall|k: int|
                0 <= k < i ==> (#[trigger] c@.code[k] matches OpCode::Constant(j) ==> j
                    < c@.constants.len()),
            forall|k: int| 0 <= k < i ==> ((c@.code[k] is Return) <==> k == n - 1),
            forall|k: int| 0 <= k < i ==> stack_height(c@.code, k) >= op_pops(c@.code[k]),
            i == n ==> stack_height(c@.code, n - 1) == 1,
        decreases n - i,
    {
        let op = c.code[i];
        match op {
            OpCode::Constant(j) => {
                if i == n - 1 {
                    return false;
                }
                if j >= c.constants.len() {
                    return false;
                }
                h = h + 1;
            },
            OpCode::Negate => {
                if i == n - 1 {
                    return false;
                }
                if h < 1 {
                    return false;
                }
            },
            OpCode::Return => {
                if i != n - 1 {
                    return false;
                }
                if h != 1 {
                    return false;
                }
                h = h - 1;
            },
            _ => {
                if i == n - 1 {
                    return false;
                }
                if h < 2 {
                    return false;
                }
                h = h - 1;
            },
        }
        i = i + 1;
    }
    true
}

/// Two inputs run independently: right after a chunk is loaded, the
/// machine's execution state — instruction pointer and operand stack — is
/// a function of that chunk alone, and nothing of an earlier run remains
/// (the stack is empty both when a run finishes and when the next load
/// happens).
pub proof fn lemma_runs_independent(vm1: VirtualMachine, vm2: VirtualMachine)
    requires
        vm1.curr_chunk is Some,
        vm2.curr_chunk is Some,
        vm1.curr_chunk.unwrap()@ == vm2.curr_chunk.unwrap()@,
        vm1.instruction_ptr == 0,
        vm2.instruction_ptr == 0,
        vm1.stack@.len() == 0,
        vm2.stack@.len() == 0,
        !vm1.pending && !vm1.finished,
        !vm2.pending && !vm2.finished,
    ensures
        vm1.instruction_ptr == vm2.instruction_ptr,
        vm1.stack@ == vm2.stack@,
        vm1.curr_chunk.unwrap()@ == vm2.curr_chunk.unwrap()@,
{
    assert(vm1.stack@ =~= vm2.stack@);
}

} // verus!
