//! The machine that runs programs.

use vstd::prelude::*;

use crate::{
    add_velocity_to_pointer, advanced, lemma_advance_wraps_at_zero,
    comparator::{turned, Comparator},
    instruction::Instruction,
    io::IO,
    number::Number,
    plane::{in_bounds, Plane},
    stack::{popped, top_or, Stack},
    Pointer, Velocity, LEFT, RIGHT,
};

verus! {

/// The run state of a machine.
#[derive(Clone, Copy, Debug, PartialEq, Eq, Structural)]
pub enum State {
    Running,
    Stopped,
    InputWaiting,
}

/// The number of stack cells covering `length` instruction cells: one stack
/// for each block of four.
pub open spec fn coarse_length(length: nat) -> nat {
    (length + 3) / 4
}

/// Runs a program held in an instruction plane, with one stack for each
/// 4 by 4 block of instruction cells.
#[verifier::reject_recursive_types(N)]
#[verifier::reject_recursive_types(StackType)]
pub struct Machine<N, InstructionPlane, StackType, StackPlane> where
    N: Number,
    InstructionPlane: Plane<Item = Instruction>,
    StackType: Stack<Item = N>,
    StackPlane: Plane<Item = StackType>,
 {
    state: State,
    instructions: InstructionPlane,
    stacks: StackPlane,
    register: N,
    pointer: Pointer,
    velocity: Velocity,
}

impl<N, InstructionPlane, StackType, StackPlane> Machine<N, InstructionPlane, StackType, StackPlane> where
    N: Number,
    InstructionPlane: Plane<Item = Instruction>,
    StackType: Stack<Item = N>,
    StackPlane: Plane<Item = StackType>,
 {
    pub closed spec fn state_spec(&self) -> State {
        self.state
    }

    pub closed spec fn register_spec(&self) -> N {
        self.register
    }

    pub closed spec fn pointer_spec(&self) -> Pointer {
        self.pointer
    }

    pub closed spec fn velocity_spec(&self) -> Velocity {
        self.velocity
    }

    /// The width of the instruction plane.
    pub closed spec fn width_spec(&self) -> nat {
        self.instructions.width_spec()
    }

    /// The height of the instruction plane.
    pub closed spec fn height_spec(&self) -> nat {
        self.instructions.height_spec()
    }

    pub closed spec fn instruction_at(&self, x: int, y: int) -> Instruction {
        self.instructions.cell(x, y)
    }

    /// The values of the stack at stack cell `(x, y)`, bottom first.
    pub closed spec fn stack_at(&self, x: int, y: int) -> Seq<N> {
        self.stacks.cell(x, y).items()
    }

    pub closed spec fn wf(&self) -> bool {
        &&& self.instructions.wf()
        &&& self.stacks.wf()
        &&& self.stacks.width_spec() == coarse_length(self.instructions.width_spec())
        &&& self.stacks.height_spec() == coarse_length(self.instructions.height_spec())
        &&& forall|x: int, y: int|
            0 <= x < self.stacks.width_spec() && 0 <= y < self.stacks.height_spec()
                ==> (#[trigger] self.stacks.cell(x, y)).wf()
        &&& self.velocity < 4
    }

    pub open spec fn stack_width_spec(&self) -> nat {
        coarse_length(self.width_spec())
    }

    pub open spec fn stack_height_spec(&self) -> nat {
        coarse_length(self.height_spec())
    }

    pub open spec fn pointer_in_bounds(&self) -> bool {
        in_bounds(self.width_spec(), self.height_spec(), self.pointer_spec())
    }

    pub open spec fn current_instruction(&self) -> Instruction {
        self.instruction_at(self.pointer_spec().0 as int, self.pointer_spec().1 as int)
    }

    /// The stack cell shared by the 4 by 4 block the pointer is in.
    pub open spec fn current_stack_cell(&self) -> Pointer {
        ((self.pointer_spec().0 / 4) as usize, (self.pointer_spec().1 / 4) as usize)
    }

    pub open spec fn current_stack(&self) -> Seq<N> {
        self.stack_at(self.current_stack_cell().0 as int, self.current_stack_cell().1 as int)
    }

    /// The direction after the current instruction runs.
    pub open spec fn next_velocity(&self) -> Velocity {
        let v = self.velocity_spec();
        match self.current_instruction() {
            Instruction::Deflector(deflector) => deflector.deflected(v),
            Instruction::Comparator(Comparator::Zero) => turned(self.register_spec(), N::zero_spec(), v),
            Instruction::Comparator(Comparator::Stack) => turned(
                self.register_spec(),
                top_or(self.current_stack(), N::zero_spec()),
                v,
            ),
            _ => v,
        }
    }

    /// The register after the current instruction runs.
    pub open spec fn next_register(&self) -> N {
        match self.current_instruction() {
            Instruction::Operator(operator) => operator.operated::<N, StackType>(
                self.register_spec(),
                self.current_stack(),
            ).0,
            _ => self.register_spec(),
        }
    }

    /// The current stack's values after the current instruction runs.
    pub open spec fn next_stack(&self) -> Seq<N> {
        match self.current_instruction() {
            Instruction::Operator(operator) => operator.operated::<N, StackType>(
                self.register_spec(),
                self.current_stack(),
            ).1,
            Instruction::Comparator(Comparator::Stack) => popped(self.current_stack()),
            _ => self.current_stack(),
        }
    }

    /// What the current instruction outputs: the register, for print.
    pub open spec fn output(&self) -> Option<N> {
        match self.current_instruction() {
            Instruction::IO(IO::Print) => Some(self.register_spec()),
            _ => None,
        }
    }

    pub open spec fn next_state(&self) -> State {
        match self.current_instruction() {
            Instruction::IO(IO::Input) => State::InputWaiting,
            _ => State::Running,
        }
    }

    /// `self` holds the same program as `other`.
    pub open spec fn same_program(&self, other: &Self) -> bool {
        &&& self.width_spec() == other.width_spec()
        &&& self.height_spec() == other.height_spec()
        &&& forall|x: int, y: int|
            0 <= x < self.width_spec() && 0 <= y < self.height_spec() ==> #[trigger] self.instruction_at(x, y)
                == other.instruction_at(x, y)
    }

    /// `self` and `other` have the same stacks, except perhaps at `cell`.
    pub open spec fn same_stacks_except(&self, other: &Self, cell: Option<Pointer>) -> bool {
        forall|x: int, y: int|
            0 <= x < self.stack_width_spec() && 0 <= y < self.stack_height_spec() && cell != Some((x as usize, y as usize))
                ==> #[trigger] self.stack_at(x, y) == other.stack_at(x, y)
    }

    /// A pointer that has wrapped to `usize::MAX` is outside every program,
    /// so the next step stops the machine.
    pub proof fn lemma_wrapped_pointer_is_outside(&self)
        requires
            self.wf(),
            self.pointer_spec().0 == usize::MAX || self.pointer_spec().1 == usize::MAX,
        ensures
            !self.pointer_in_bounds(),
    {
        self.instructions.lemma_dimensions_fit();
    }

    /// Stepping left off column 0 leaves every program: when a step at
    /// `(0, y)` leaves the machine running and heading left, its pointer
    /// becomes `(usize::MAX, y)`, outside the program, so that the next step
    /// stops it.
    pub proof fn lemma_left_from_column_zero_leaves(&self, next: &Self)
        requires
            self.wf(),
            self.state_spec() == State::Running,
            self.pointer_in_bounds(),
            self.pointer_spec().0 == 0,
            self.next_velocity() == LEFT,
            self.next_state() == State::Running,
            next.wf(),
            next.same_program(self),
            next.state_spec() == self.next_state(),
            next.pointer_spec() == advanced(self.next_velocity(), self.pointer_spec()),
        ensures
            next.pointer_spec() == (usize::MAX, self.pointer_spec().1),
            next.state_spec() == State::Running,
            !next.pointer_in_bounds(),
    {
        lemma_advance_wraps_at_zero(self.pointer_spec());
        next.lemma_wrapped_pointer_is_outside();
    }

    /// A running machine with the pointer at `(0, 0)`, moving right, and a
    /// zero register.
    pub fn new(instructions: InstructionPlane, stacks: StackPlane) -> (r: Self)
        requires
            instructions.wf(),
            stacks.wf(),
            stacks.width_spec() == coarse_length(instructions.width_spec()),
            stacks.height_spec() == coarse_length(instructions.height_spec()),
            forall|x: int, y: int|
                0 <= x < stacks.width_spec() && 0 <= y < stacks.height_spec() ==> (#[trigger] stacks.cell(x, y)).wf(),
        ensures
            r.wf(),
            r.state_spec() == State::Running,
            r.register_spec() == N::zero_spec(),
            r.pointer_spec() == (0usize, 0usize),
            r.velocity_spec() == RIGHT,
            r.width_spec() == instructions.width_spec(),
            r.height_spec() == instructions.height_spec(),
            forall|x: int, y: int| #[trigger] r.instruction_at(x, y) == instructions.cell(x, y),
            forall|x: int, y: int| #[trigger] r.stack_at(x, y) == stacks.cell(x, y).items(),
    {
        Machine {
            state: State::Running,
            instructions,
            stacks,
            register: N::zero(),
            pointer: (0, 0),
            velocity: 0,
        }
    }

    /// Runs one instruction. Does nothing unless the machine is running; a
    /// pointer outside the program stops it. Returns the printed value, if
    /// any.
    pub fn step(&mut self) -> (r: Option<&N>)
        requires
            old(self).wf(),
        ensures
            final(self).wf(),
            final(self).same_program(old(self)),
            old(self).state_spec() != State::Running ==> r is None && *final(self) == *old(self),
            old(self).state_spec() == State::Running && !old(self).pointer_in_bounds() ==> {
                &&& r is None
                &&& final(self).state_spec() == State::Stopped
                &&& final(self).register_spec() == old(self).register_spec()
                &&& final(self).pointer_spec() == old(self).pointer_spec()
                &&& final(self).velocity_spec() == old(self).velocity_spec()
                &&& final(self).same_stacks_except(old(self), None)
            },
            old(self).state_spec() == State::Running && old(self).pointer_in_bounds() ==> {
                &&& (match r {
                    Some(value) => old(self).output() == Some(*value),
                    None => old(self).output() is None,
                })
                &&& final(self).state_spec() == old(self).next_state()
                &&& final(self).register_spec() == old(self).next_register()
                &&& final(self).velocity_spec() == old(self).next_velocity()
                &&& final(self).pointer_spec() == advanced(old(self).next_velocity(), old(self).pointer_spec())
                &&& final(self).stack_at(
                    old(self).current_stack_cell().0 as int,
                    old(self).current_stack_cell().1 as int,
                ) == old(self).next_stack()
                &&& final(self).same_stacks_except(old(self), Some(old(self).current_stack_cell()))
            },
    {
        if !matches!(self.state, State::Running) {
            return None;
        }
        let instruction = match self.instructions.get(self.pointer) {
            Some(instruction) => *instruction,
            None => {
                self.state = State::Stopped;
                return None;
            },
        };
        let cell = (self.pointer.0 / 4, self.pointer.1 / 4);
        let output = match instruction {
            Instruction::Space => None,
            Instruction::Deflector(deflector) => {
                let velocity = self.velocity;
                assert(velocity < 4 ==> (velocity ^ 1) < 4 && (velocity ^ 2) < 4 && (velocity ^ 3) < 4) by (bit_vector);
                self.velocity = deflector.apply(velocity);
                None
            },
            Instruction::Operator(operator) => {
                let stack = self.stacks.get_mut(cell).unwrap();
                self.register = operator.apply(self.register, stack);
                None
            },
            Instruction::Comparator(comparator) => {
                let stack = self.stacks.get_mut(cell).unwrap();
                self.velocity = comparator.apply(&self.register, stack, self.velocity);
                None
            },
            Instruction::IO(io) => {
                let (output, io_wait) = io.apply(&self.register);
                if io_wait {
                    self.state = State::InputWaiting;
                }
                output
            },
        };
        self.pointer = add_velocity_to_pointer(self.velocity, self.pointer);
        output
    }

    /// Gives `input` to a machine waiting for input, which then runs on.
    /// Does nothing in any other state.
    pub fn input(&mut self, input: N)
        requires
            old(self).wf(),
        ensures
            final(self).wf(),
            old(self).state_spec() == State::InputWaiting ==> {
                &&& final(self).state_spec() == State::Running
                &&& final(self).register_spec() == input
                &&& final(self).pointer_spec() == old(self).pointer_spec()
                &&& final(self).velocity_spec() == old(self).velocity_spec()
                &&& final(self).same_program(old(self))
                &&& final(self).same_stacks_except(old(self), None)
            },
            old(self).state_spec() != State::InputWaiting ==> *final(self) == *old(self),
    {
        if matches!(self.state, State::InputWaiting) {
            self.register = input;
            self.state = State::Running;
        }
    }

    pub fn get_state(&self) -> (r: State)
        ensures
            r == self.state_spec(),
    {
        self.state
    }

    pub fn get_pointer(&self) -> (r: Pointer)
        ensures
            r == self.pointer_spec(),
    {
        self.pointer
    }

    pub fn get_register(&self) -> (r: N)
        ensures
            r == self.register_spec(),
    {
        self.register
    }
}

} // verus!
