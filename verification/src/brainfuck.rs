//! A tiny eight-instruction tape interpreter: a byte tape, a data pointer,
//! matched jump pairs, and buffered byte I/O, stepped one instruction per
//! tick.

use std::collections::VecDeque;

use vstd::prelude::*;

verus! {

/// One instruction. The jump variants carry the resolved target: the index
/// just past the matching bracket, filled in by `parse_semantics`.
#[derive(Debug, Clone, Copy, PartialEq, Eq, Structural)]
pub enum Instruction {
    /// Move the data pointer right, growing the tape on demand.
    PtrInc,
    /// Move the data pointer left.
    PtrDec,
    /// Increment the current cell, wrapping.
    Inc,
    /// Decrement the current cell, wrapping.
    Dec,
    /// Append the current cell to the output.
    Prt,
    /// Read one byte of input into the current cell, or pause for input.
    Read,
    /// Jump to the target if the current cell is zero.
    JmpNext(usize),
    /// Jump to the target if the current cell is nonzero.
    JmpPrev(usize),
}

/// Whether a visualized interpreter is being stepped or held.
#[derive(Debug, Clone, Copy)]
pub enum InterpreterState {
    Paused,
    Running,
}

impl InterpreterState {
    pub fn is_paused(&self) -> (r: bool)
        ensures
            r == (self is Paused),
    {
        matches!(self, InterpreterState::Paused)
    }

    pub fn is_running(&self) -> (r: bool)
        ensures
            r == (self is Running),
    {
        matches!(self, InterpreterState::Running)
    }
}

/// Why a program's jump structure was rejected.
#[derive(Debug, Clone, Copy, PartialEq, Eq, Structural)]
pub enum ParseError {
    /// A closing bracket with no open bracket left to match.
    UnmatchedClose,
    /// An opening bracket that never closes.
    UnmatchedOpen,
}

/// The bracket balance of the first `k` instructions: opens minus closes.
pub open spec fn balance(s: Seq<Instruction>, k: int) -> int
    decreases k,
{
    if k <= 0 {
        0
    } else {
        balance(s, k - 1) + if s[k - 1] is JmpNext {
            1
        } else if s[k - 1] is JmpPrev {
            -1
        } else {
            0
        }
    }
}

/// A well-bracketed program: no prefix closes more than it opened, and
/// every open is closed.
pub open spec fn well_bracketed(s: Seq<Instruction>) -> bool {
    &&& forall|k: int| 0 <= k <= s.len() ==> balance(s, k) >= 0
    &&& balance(s, s.len() as int) == 0
}

/// Whether two instructions are the same kind, targets aside.
pub open spec fn same_kind(a: Instruction, b: Instruction) -> bool {
    match (a, b) {
        (Instruction::JmpNext(_), Instruction::JmpNext(_)) => true,
        (Instruction::JmpPrev(_), Instruction::JmpPrev(_)) => true,
        _ => a == b,
    }
}

/// One instruction's pairing duty once resolution is done: a jump points
/// just past a partner that points just past it; other instructions owe
/// nothing.
pub open spec fn jump_ok(s: Seq<Instruction>, i: int) -> bool {
    match s[i] {
        Instruction::JmpNext(t) => 1 <= t <= s.len() && s[t - 1] == Instruction::JmpPrev(
            (i + 1) as usize,
        ),
        Instruction::JmpPrev(t) => 1 <= t <= s.len() && s[t - 1] == Instruction::JmpNext(
            (i + 1) as usize,
        ),
        _ => true,
    }
}

/// A fully resolved program: every jump is mutually paired.
pub open spec fn jumps_paired(s: Seq<Instruction>) -> bool {
    forall|i: int| 0 <= i < s.len() ==> #[trigger] jump_ok(s, i)
}

/// Mid-resolution pairing duty: an open still on the unmatched stack owes
/// nothing yet; everything else before the scan bound is mutually paired
/// with a partner before the bound, and a pair's open is off the stack.
pub(crate) open spec fn pair_ok(
    s: Seq<Instruction>,
    stack: Seq<usize>,
    bound: int,
    i: int,
) -> bool {
    match s[i] {
        Instruction::JmpNext(t) => stack.contains(i as usize) || (1 <= t <= bound && s[t - 1]
            == Instruction::JmpPrev((i + 1) as usize)),
        Instruction::JmpPrev(t) => 1 <= t <= bound && t - 1 < i && s[t - 1]
            == Instruction::JmpNext((i + 1) as usize) && !stack.contains((t - 1) as usize),
        _ => true,
    }
}

/// The interpreter: the program, the input and output buffers, and the
/// tape. All state is plain data; `tick` advances it one instruction.
#[derive(Debug, Default)]
pub struct Interpreter {
    pub instructions: Vec<Instruction>,

    pub input_buf: VecDeque<u8>,
    pub waitting_input: bool,
    pub output: Vec<u8>,

    pub memory: Vec<u8>,
    pub memory_ptr: usize,
    pub instruction_ptr: usize,
}

impl Interpreter {
    /// The tape is never smaller than the data pointer reaches: an empty
    /// tape pins the pointer to zero, a grown one keeps it in range.
    pub open spec fn wf(&self) -> bool {
        &&& (self.memory@.len() == 0 ==> self.memory_ptr == 0)
        &&& (self.memory@.len() > 0 ==> self.memory_ptr < self.memory@.len())
    }

    /// Resolves the jump targets: each bracket learns the index just past
    /// its partner. Succeeds exactly on well-bracketed programs; the error
    /// tells which side was unmatched. Instruction kinds and everything but
    /// jump targets are left as they were.
    pub fn parse_semantics(&mut self) -> (r: Result<(), ParseError>)
        ensures
            final(self).instructions@.len() == old(self).instructions@.len(),
            forall|i: int|
                0 <= i < old(self).instructions@.len() ==> same_kind(
                    #[trigger] final(self).instructions@[i],
                    old(self).instructions@[i],
                ),
            final(self).input_buf == old(self).input_buf,
            final(self).output == old(self).output,
            final(self).memory == old(self).memory,
            final(self).memory_ptr == old(self).memory_ptr,
            final(self).instruction_ptr == old(self).instruction_ptr,
            final(self).waitting_input == old(self).waitting_input,
            r == Ok::<(), ParseError>(()) <==> well_bracketed(old(self).instructions@),
            r == Err::<(), ParseError>(ParseError::UnmatchedClose) <==> (exists|k: int|
                0 <= k <= old(self).instructions@.len() && balance(old(self).instructions@, k)
                    < 0),
            r == Ok::<(), ParseError>(()) ==> jumps_paired(final(self).instructions@),
    {
        let ghost s0 = self.instructions@;
        let n = self.instructions.len();
        let mut unmatched: Vec<usize> = Vec::new();
        let mut idx: usize = 0;
        while idx < n
            invariant
                s0 == old(self).instructions@,
                n == self.instructions@.len(),
                n == s0.len(),
                idx <= n,
                self.input_buf == old(self).input_buf,
                self.output == old(self).output,
                self.memory == old(self).memory,
                self.memory_ptr == old(self).memory_ptr,
                self.instruction_ptr == old(self).instruction_ptr,
                self.waitting_input == old(self).waitting_input,
                forall|i: int| 0 <= i < n ==> same_kind(#[trigger] self.instructions@[i], s0[i]),
                forall|i: int| idx <= i < n ==> #[trigger] self.instructions@[i] == s0[i],
                unmatched@.len() == balance(s0, idx as int),
                forall|k: int| 0 <= k <= idx ==> balance(s0, k) >= 0,
                forall|j: int|
                    0 <= j < unmatched@.len() ==> 0 <= #[trigger] unmatched@[j] < idx
                        && self.instructions@[unmatched@[j] as int] is JmpNext,
                forall|j1: int, j2: int|
                    0 <= j1 < j2 < unmatched@.len() ==> #[trigger] unmatched@[j1]
                        < #[trigger] unmatched@[j2],
                forall|i: int|
                    0 <= i < idx ==> #[trigger] pair_ok(
                        self.instructions@,
                        unmatched@,
                        idx as int,
                        i,
                    ),
            decreases n - idx,
        {
            let ghost s_pre = self.instructions@;
            let ghost stack_pre = unmatched@;
            let inst = self.instructions[idx];
            match inst {
                Instruction::JmpNext(_) => {
                    unmatched.push(idx);
                    proof {
                        assert(balance(s0, idx + 1) == balance(s0, idx as int) + 1);
                        assert forall|i: int|
                            0 <= i < idx + 1 implies #[trigger] pair_ok(
                            self.instructions@,
                            unmatched@,
                            idx + 1,
                            i,
                        ) by {
                            if i < idx {
                                assert(pair_ok(s_pre, stack_pre, idx as int, i));
                                assert forall|v: usize|
                                    stack_pre.contains(v) implies #[trigger] unmatched@.contains(
                                    v,
                                ) by {
                                    let j = choose|j: int|
                                        0 <= j < stack_pre.len() && stack_pre[j] == v;
                                    assert(unmatched@[j] == v);
                                };
                                assert forall|v: usize|
                                    #[trigger] unmatched@.contains(v) implies stack_pre.contains(v)
                                    || v == idx by {
                                    let j = choose|j: int|
                                        0 <= j < unmatched@.len() && unmatched@[j] == v;
                                    if j < stack_pre.len() {
                                        assert(stack_pre[j] == v);
                                    }
                                };
                            } else {
                                assert(unmatched@.last() == idx);
                                assert(unmatched@.contains(idx as usize));
                            }
                        };
                    }
                },
                Instruction::JmpPrev(_) => {
                    match unmatched.pop() {
                        Some(addr) => {
                            self.instructions[addr] = Instruction::JmpNext(idx + 1);
                            self.instructions[idx] = Instruction::JmpPrev(addr + 1);
                            proof {
                                assert(balance(s0, idx + 1) == balance(s0, idx as int) - 1);
                                assert(stack_pre.last() == addr);
                                assert(stack_pre.contains(addr));
                                assert forall|v: usize|
                                    #[trigger] unmatched@.contains(v) implies stack_pre.contains(
                                    v,
                                ) by {
                                    let j = choose|j: int|
                                        0 <= j < unmatched@.len() && unmatched@[j] == v;
                                    assert(stack_pre[j] == v);
                                };
                                assert(!unmatched@.contains(addr)) by {
                                    if unmatched@.contains(addr) {
                                        let j = choose|j: int|
                                            0 <= j < unmatched@.len() && unmatched@[j] == addr;
                                        assert(stack_pre[j] < stack_pre.last());
                                    }
                                }
                                assert forall|i: int|
                                    0 <= i < idx + 1 implies #[trigger] pair_ok(
                                    self.instructions@,
                                    unmatched@,
                                    idx + 1,
                                    i,
                                ) by {
                                    if i == addr {
                                        assert(self.instructions@[addr as int]
                                            == Instruction::JmpNext((idx + 1) as usize));
                                    } else if i == idx {
                                        assert(self.instructions@[idx as int]
                                            == Instruction::JmpPrev((addr + 1) as usize));
                                    } else {
                                        assert(pair_ok(s_pre, stack_pre, idx as int, i));
                                        if stack_pre.contains(i as usize) && !unmatched@.contains(
                                            i as usize,
                                        ) {
                                            let j = choose|j: int|
                                                0 <= j < stack_pre.len() && stack_pre[j]
                                                    == i as usize;
                                            if j < stack_pre.len() - 1 {
                                                assert(unmatched@[j] == i as usize);
                                                assert(unmatched@.contains(i as usize));
                                            }
                                            assert(j == stack_pre.len() - 1);
                                            assert(i == addr);
                                        }
                                    }
                                };
                            }
                        },
                        None => {
                            proof {
                                assert(balance(s0, idx + 1) == balance(s0, idx as int) - 1);
                                assert(balance(s0, idx + 1) < 0);
                            }
                            return Err(ParseError::UnmatchedClose);
                        },
                    }
                },
                _ => {
                    proof {
                        assert(balance(s0, idx + 1) == balance(s0, idx as int));
                        assert forall|i: int|
                            0 <= i < idx + 1 implies #[trigger] pair_ok(
                            self.instructions@,
                            unmatched@,
                            idx + 1,
                            i,
                        ) by {
                            if i < idx {
                                assert(pair_ok(self.instructions@, unmatched@, idx as int, i));
                            }
                        };
                    }
                },
            }
            idx = idx + 1;
        }
        if unmatched.len() > 0 {
            return Err(ParseError::UnmatchedOpen);
        }
        proof {
            assert forall|i: int| 0 <= i < n implies #[trigger] jump_ok(self.instructions@, i) by {
                assert(pair_ok(self.instructions@, unmatched@, n as int, i));
                assert(!unmatched@.contains(self.instructions@[i]->JmpNext_0) || true);
            };
        }
        Ok(())
    }

    /// Back to the initial state, keeping only the program: empty buffers,
    /// an empty tape, both pointers at zero.
    pub fn reset(&mut self)
        ensures
            final(self).instructions == old(self).instructions,
            final(self).input_buf@.len() == 0,
            final(self).output@.len() == 0,
            final(self).memory@.len() == 0,
            final(self).memory_ptr == 0,
            final(self).instruction_ptr == 0,
            !final(self).waitting_input,
            final(self).wf(),
    {
        self.input_buf.clear();
        self.waitting_input = false;
        self.output.clear();
        self.memory.clear();
        self.memory_ptr = 0;
        self.instruction_ptr = 0;
    }

    /// One instruction step. Returns `true` exactly when the program has
    /// run off its end; otherwise executes the current instruction: moves
    /// or grows the tape, adjusts the current cell wrapping, buffers
    /// output, consumes input or pauses for it, and takes or skips jumps by
    /// the current cell. The tape invariant is kept, and a pointer move
    /// left of the tape is excluded by contract, as the interpreter would
    /// otherwise abandon the run.
    pub fn tick(&mut self) -> (r: bool)
        requires
            old(self).wf(),
            old(self).instruction_ptr < old(self).instructions@.len() && old(
                self,
            ).instructions@[old(self).instruction_ptr as int] is PtrDec ==> old(self).memory_ptr
                > 0,
        ensures
            final(self).wf(),
            final(self).instructions == old(self).instructions,
            r == (old(self).instruction_ptr >= old(self).instructions@.len()),
            r ==> *final(self) == *old(self),
            !r ==> ({
                let mem0 = if old(self).memory@.len() == 0 {
                    old(self).memory@.push(0)
                } else {
                    old(self).memory@
                };
                let inst = old(self).instructions@[old(self).instruction_ptr as int];
                let ip1 = old(self).instruction_ptr + 1;
                &&& final(self).input_buf@ == (if inst is Read && old(self).input_buf@.len() > 0 {
                    old(self).input_buf@.drop_first()
                } else {
                    old(self).input_buf@
                })
                &&& final(self).output@ == (if inst is Prt {
                    old(self).output@.push(mem0[old(self).memory_ptr as int])
                } else {
                    old(self).output@
                })
                &&& (match inst {
                    Instruction::PtrInc => {
                        &&& final(self).memory_ptr == old(self).memory_ptr + 1
                        &&& final(self).memory@ == (if mem0.len() == old(self).memory_ptr + 1 {
                            mem0.push(0)
                        } else {
                            mem0
                        })
                        &&& final(self).instruction_ptr == ip1
                        &&& final(self).waitting_input == old(self).waitting_input
                    },
                    Instruction::PtrDec => {
                        &&& final(self).memory_ptr == old(self).memory_ptr - 1
                        &&& final(self).memory@ == mem0
                        &&& final(self).instruction_ptr == ip1
                        &&& final(self).waitting_input == old(self).waitting_input
                    },
                    Instruction::Inc => {
                        &&& final(self).memory_ptr == old(self).memory_ptr
                        &&& final(self).memory@ == mem0.update(
                            old(self).memory_ptr as int,
                            vstd::wrapping::u8_specs::wrapping_add(
                                mem0[old(self).memory_ptr as int],
                                1,
                            ),
                        )
                        &&& final(self).instruction_ptr == ip1
                        &&& final(self).waitting_input == old(self).waitting_input
                    },
                    Instruction::Dec => {
                        &&& final(self).memory_ptr == old(self).memory_ptr
                        &&& final(self).memory@ == mem0.update(
                            old(self).memory_ptr as int,
                            vstd::wrapping::u8_specs::wrapping_sub(
                                mem0[old(self).memory_ptr as int],
                                1,
                            ),
                        )
                        &&& final(self).instruction_ptr == ip1
                        &&& final(self).waitting_input == old(self).waitting_input
                    },
                    Instruction::Prt => {
                        &&& final(self).memory_ptr == old(self).memory_ptr
                        &&& final(self).memory@ == mem0
                        &&& final(self).instruction_ptr == ip1
                        &&& final(self).waitting_input == old(self).waitting_input
                    },
                    Instruction::Read => {
                        if old(self).input_buf@.len() > 0 {
                            &&& final(self).memory_ptr == old(self).memory_ptr
                            &&& final(self).memory@ == mem0.update(
                                old(self).memory_ptr as int,
                                old(self).input_buf@[0],
                            )
                            &&& final(self).instruction_ptr == ip1
                            &&& !final(self).waitting_input
                        } else {
                            &&& final(self).memory_ptr == old(self).memory_ptr
                            &&& final(self).memory@ == mem0
                            &&& final(self).instruction_ptr == old(self).instruction_ptr
                            &&& final(self).waitting_input
                        }
                    },
                    Instruction::JmpNext(addr) => {
                        &&& final(self).memory_ptr == old(self).memory_ptr
                        &&& final(self).memory@ == mem0
                        &&& final(self).instruction_ptr == (if mem0[old(self).memory_ptr as int]
                            == 0 {
                            addr as int
                        } else {
                            ip1 as int
                        })
                        &&& final(self).waitting_input == old(self).waitting_input
                    },
                    Instruction::JmpPrev(addr) => {
                        &&& final(self).memory_ptr == old(self).memory_ptr
                        &&& final(self).memory@ == mem0
                        &&& final(self).instruction_ptr == (if mem0[old(self).memory_ptr as int]
                            != 0 {
                            addr as int
                        } else {
                            ip1 as int
                        })
                        &&& final(self).waitting_input == old(self).waitting_input
                    },
                })
            }),
    {
        if self.instruction_ptr >= self.instructions.len() {
            return true;
        }
        if self.memory.len() == 0 {
            self.memory.push(0);
        }
        let instruction = self.instructions[self.instruction_ptr];
        let mut new_instruction_ptr = self.instruction_ptr + 1;
        match instruction {
            Instruction::PtrInc => {
                self.memory_ptr = self.memory_ptr + 1;
                if self.memory.len() == self.memory_ptr {
                    self.memory.push(0);
                }
            },
            Instruction::PtrDec => {
                self.memory_ptr = self.memory_ptr - 1;
            },
            Instruction::Inc => {
                let v = self.memory[self.memory_ptr].wrapping_add(1);
                self.memory[self.memory_ptr] = v;
            },
            Instruction::Dec => {
                let v = self.memory[self.memory_ptr].wrapping_sub(1);
                self.memory[self.memory_ptr] = v;
            },
            Instruction::Prt => {
                let v = self.memory[self.memory_ptr];
                self.output.push(v);
            },
            Instruction::Read => {
                match self.input_buf.pop_front() {
                    Some(value) => {
                        self.waitting_input = false;
                        self.memory[self.memory_ptr] = value;
                    },
                    None => {
                        self.waitting_input = true;
                        return false;
                    },
                }
            },
            Instruction::JmpNext(addr) => {
                if self.memory[self.memory_ptr] == 0 {
                    new_instruction_ptr = addr;
                }
            },
            Instruction::JmpPrev(addr) => {
                if self.memory[self.memory_ptr] != 0 {
                    new_instruction_ptr = addr;
                }
            },
        }
        self.instruction_ptr = new_instruction_ptr;
        false
    }
}

} // verus!
