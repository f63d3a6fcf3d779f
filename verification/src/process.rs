//! The checks that a process makes when it executes a program function and
//! when it verifies an execution: which requests it accepts, which
//! transitions are well-formed, and the public inputs against which each
//! transition's proof is to be checked.
//!
//! What only cryptography and the circuits decide is not computed here: a
//! transition carries whether its identifier is the root of its contents and
//! whether each input and output verifies; `check_transition` gives the
//! verifying key, public inputs and proof of a transition's proof check, and
//! `verify_execution` hands each such check to a verifier closure; `execute`
//! takes the running of the function as a closure.
use crate::field::{copy_elements, Field};
use vstd::prelude::*;

verus! {

/// The parameters of the network a process serves.
#[derive(Clone, Copy, Debug)]
pub struct Network {
    /// The network identifier.
    pub id: u16,
    /// The edition of the network's programs.
    pub edition: u16,
    /// The greatest number of inputs (and outputs) of a transition.
    pub max_inputs: usize,
    /// The program of the coinbase function.
    pub coinbase_program: u64,
    /// The coinbase function.
    pub coinbase_function: u64,
}

/// Where a call instruction leads.
#[derive(Clone, Copy, Debug, PartialEq, Eq, Structural)]
pub enum CallTarget {
    /// A function, which runs as a transition of its own.
    Function,
    /// A closure, which runs inside the caller's transition.
    Closure,
    /// A name that the stack does not resolve.
    Unresolved,
}

/// An instruction of a function body.
#[derive(Clone, Copy, Debug, PartialEq, Eq, Structural)]
pub enum Instruction {
    Call(CallTarget),
    Other,
}

/// A function of a program.
#[derive(Debug)]
pub struct Function {
    pub name: u64,
    pub instructions: Vec<Instruction>,
    /// The number of transitions an execution of the function makes,
    /// its own included.
    pub number_of_calls: usize,
    /// The verifying key of the function's circuit, if the process holds one.
    pub verifying_key: Option<Vec<u8>>,
}

/// A program loaded into the process, with its functions.
#[derive(Debug)]
pub struct Stack {
    pub program_id: u64,
    pub functions: Vec<Function>,
}

/// The programs loaded into a process.
#[derive(Debug)]
pub struct Process {
    pub network: Network,
    pub stacks: Vec<Stack>,
}

/// A request to run a function.
#[derive(Clone, Copy, Debug, PartialEq, Eq, Structural)]
pub struct Request {
    pub network_id: u16,
    pub program_id: u64,
    pub function_name: u64,
}

/// The signed requests of an execution, the main request first.
#[derive(Debug)]
pub struct Authorization {
    pub requests: Vec<Request>,
}

/// An input of a transition.
#[derive(Debug)]
pub struct TransitionInput {
    /// The field elements the input contributes to the proof's public inputs.
    pub verifier_inputs: Vec<Field>,
    /// Whether the input verifies.
    pub verifies: bool,
}

/// An output of a transition.
#[derive(Debug)]
pub struct TransitionOutput {
    /// The field elements the output contributes to the proof's public inputs.
    pub verifier_inputs: Vec<Field>,
    /// The identifier of the output.
    pub id: Field,
    /// Whether the output verifies.
    pub verifies: bool,
}

/// A transition: one function run, with its inputs, outputs and fee.
#[derive(Debug)]
pub struct Transition {
    pub program_id: u64,
    pub function_name: u64,
    /// Whether the transition's identifier is the root of its contents.
    pub id_matches_root: bool,
    pub inputs: Vec<TransitionInput>,
    pub outputs: Vec<TransitionOutput>,
    pub fee: i64,
    /// The coordinates of the transition public key.
    pub tpk_x: Field,
    pub tpk_y: Field,
    /// The transition commitment.
    pub tcm: Field,
    /// The proof of the transition.
    pub proof: Vec<u8>,
}

/// The transitions of an execution, in the order they were made: callees
/// before their caller, the main transition last.
#[derive(Debug)]
pub struct Execution {
    pub edition: u16,
    pub transitions: Vec<Transition>,
}

/// A proof that remains to be checked: the transition and its public inputs.
#[derive(Debug)]
pub struct ProofCheck {
    pub transition_index: usize,
    pub program_id: u64,
    pub function_name: u64,
    /// The verifying key of the transition's function.
    pub verifying_key: Vec<u8>,
    /// The public inputs.
    pub inputs: Vec<Field>,
    /// The transition's proof.
    pub proof: Vec<u8>,
}

/// Why a process refuses a request or an execution.
#[derive(Clone, Copy, Debug, PartialEq, Eq, Structural)]
pub enum ProcessError {
    /// The authorization holds no request.
    NoRequest,
    /// The network of the request is not the process's.
    NetworkMismatch,
    /// No program of that identifier is loaded.
    MissingProgram,
    /// The program has no function of that name.
    MissingFunction,
    /// Running the function produced no transition.
    EmptyExecution,
    /// The execution was made for another edition.
    WrongEdition,
    /// The execution holds no transition.
    NoTransitions,
    /// The number of transitions is not the number of calls of the main function.
    WrongTransitionCount,
    /// A transition identifier is not the root of its transition.
    WrongTransitionId,
    /// A transition has more inputs than allowed.
    TooManyInputs,
    /// A transition has more outputs than allowed.
    TooManyOutputs,
    /// An input of a transition does not verify.
    InvalidInput,
    /// An output of a transition does not verify.
    InvalidOutput,
    /// A coinbase transition does not have a negative fee.
    NonNegativeCoinbaseFee,
    /// A transition other than a coinbase has a negative fee.
    NegativeFee,
    /// A call instruction names nothing the program resolves.
    UnresolvedCall,
    /// The process holds no verifying key for the function.
    MissingVerifyingKey,
    /// The proof of a transition does not verify.
    InvalidTransition,
}

// ----------------------------------------------------------------------------
// Lookups
// ----------------------------------------------------------------------------

impl Process {
    /// Program identifiers are distinct, and so are the names of the functions
    /// of each program.
    pub open spec fn wf(self) -> bool {
        &&& forall|i: int, j: int|
            0 <= i < j < self.stacks@.len() ==> (#[trigger] self.stacks@[i]).program_id
                != (#[trigger] self.stacks@[j]).program_id
        &&& forall|i: int| 0 <= i < self.stacks@.len() ==> (#[trigger] self.stacks@[i]).wf()
    }

    /// Whether a program of this identifier is loaded.
    pub open spec fn has_program(self, program_id: u64) -> bool {
        exists|i: int| 0 <= i < self.stacks@.len() && (#[trigger] self.stacks@[i]).program_id == program_id
    }

    /// The position of the program of this identifier.
    pub open spec fn program_index(self, program_id: u64) -> int {
        choose|i: int| 0 <= i < self.stacks@.len() && (#[trigger] self.stacks@[i]).program_id == program_id
    }

    /// The program of this identifier.
    pub open spec fn program(self, program_id: u64) -> Stack {
        self.stacks@[self.program_index(program_id)]
    }

    /// Whether the program of this identifier is loaded and has a function of this name.
    pub open spec fn has_function(self, program_id: u64, function_name: u64) -> bool {
        self.has_program(program_id) && self.program(program_id).has_function(function_name)
    }

    /// The function of this name of the program of this identifier.
    pub open spec fn function(self, program_id: u64, function_name: u64) -> Function {
        self.program(program_id).function(function_name)
    }

    /// Finds the program of this identifier.
    pub fn get_stack(&self, program_id: u64) -> (r: Result<usize, ProcessError>)
        requires
            self.wf(),
        ensures
            match r {
                Ok(i) => self.has_program(program_id) && i as int == self.program_index(program_id),
                Err(e) => !self.has_program(program_id) && e == ProcessError::MissingProgram,
            },
    {
        let mut i: usize = 0;
        while i < self.stacks.len()
            invariant
                self.wf(),
                i <= self.stacks@.len(),
                forall|j: int| 0 <= j < i ==> (#[trigger] self.stacks@[j]).program_id != program_id,
            decreases self.stacks.len() - i,
        {
            if self.stacks[i].program_id == program_id {
                proof {
                    assert(self.has_program(program_id));
                    let c = self.program_index(program_id);
                    if c != i as int {
                        if c < i as int {
                        } else {
                            assert(self.stacks@[i as int].program_id != self.stacks@[c].program_id);
                        }
                    }
                }
                return Ok(i);
            }
            i += 1;
        }
        Err(ProcessError::MissingProgram)
    }
}

impl Stack {
    /// Function names are distinct.
    pub open spec fn wf(self) -> bool {
        forall|i: int, j: int|
            0 <= i < j < self.functions@.len() ==> (#[trigger] self.functions@[i]).name
                != (#[trigger] self.functions@[j]).name
    }

    /// Whether the program has a function of this name.
    pub open spec fn has_function(self, name: u64) -> bool {
        exists|i: int| 0 <= i < self.functions@.len() && (#[trigger] self.functions@[i]).name == name
    }

    /// The position of the function of this name.
    pub open spec fn function_index(self, name: u64) -> int {
        choose|i: int| 0 <= i < self.functions@.len() && (#[trigger] self.functions@[i]).name == name
    }

    /// The function of this name.
    pub open spec fn function(self, name: u64) -> Function {
        self.functions@[self.function_index(name)]
    }

    /// Finds the function of this name.
    pub fn get_function(&self, name: u64) -> (r: Result<usize, ProcessError>)
        requires
            self.wf(),
        ensures
            match r {
                Ok(i) => self.has_function(name) && i as int == self.function_index(name),
                Err(e) => !self.has_function(name) && e == ProcessError::MissingFunction,
            },
    {
        let mut i: usize = 0;
        while i < self.functions.len()
            invariant
                self.wf(),
                i <= self.functions@.len(),
                forall|j: int| 0 <= j < i ==> (#[trigger] self.functions@[j]).name != name,
            decreases self.functions.len() - i,
        {
            if self.functions[i].name == name {
                proof {
                    assert(self.has_function(name));
                    let c = self.function_index(name);
                    if c != i as int {
                        if c < i as int {
                        } else {
                            assert(self.functions@[i as int].name != self.functions@[c].name);
                        }
                    }
                }
                return Ok(i);
            }
            i += 1;
        }
        Err(ProcessError::MissingFunction)
    }
}

// ----------------------------------------------------------------------------
// Execution
// ----------------------------------------------------------------------------

impl Authorization {
    /// The main request, which is not removed.
    pub fn peek_next(&self) -> (r: Result<Request, ProcessError>)
        ensures
            match r {
                Ok(q) => self.requests@.len() > 0 && q == self.requests@[0],
                Err(e) => self.requests@.len() == 0 && e == ProcessError::NoRequest,
            },
    {
        if self.requests.len() == 0 {
            Err(ProcessError::NoRequest)
        } else {
            Ok(self.requests[0])
        }
    }
}

impl Process {
    /// Why the process refuses to run the main request of an authorization with
    /// these requests, if it does.
    pub open spec fn execute_error(self, requests: Seq<Request>) -> Option<ProcessError> {
        if requests.len() == 0 {
            Some(ProcessError::NoRequest)
        } else if !self.has_program(requests[0].program_id) {
            Some(ProcessError::MissingProgram)
        } else if requests[0].network_id != self.network.id {
            Some(ProcessError::NetworkMismatch)
        } else if !self.program(requests[0].program_id).has_function(requests[0].function_name) {
            Some(ProcessError::MissingFunction)
        } else {
            None
        }
    }

    /// Executes the main request of an authorization: checks that its
    /// program is loaded, that it is for this network and that the program has
    /// the function; then runs the function with `run` (the circuit, which this
    /// crate does not hold), and refuses a run that made no transition.
    pub fn execute<R, F>(&self, authorization: Authorization, run: F) -> (r: Result<(R, Execution), ProcessError>)
        where
            F: FnOnce(Authorization) -> Result<(R, Execution), ProcessError>,
        requires
            self.wf(),
            run.requires((authorization,)),
        ensures
            match r {
                Ok((response, execution)) => {
                    &&& self.execute_error(authorization.requests@) is None
                    &&& authorization.requests@.len() > 0
                    &&& authorization.requests@[0].network_id == self.network.id
                    &&& self.has_program(authorization.requests@[0].program_id)
                    &&& self.program(authorization.requests@[0].program_id).has_function(
                        authorization.requests@[0].function_name,
                    )
                    &&& execution.transitions@.len() > 0
                    &&& run.ensures((authorization,), Ok((response, execution)))
                },
                Err(e) => {
                    ||| self.execute_error(authorization.requests@) == Some(e)
                    ||| {
                        &&& self.execute_error(authorization.requests@) is None
                        &&& exists|out: Result<(R, Execution), ProcessError>|
                            #[trigger] run.ensures((authorization,), out) && match out {
                                Ok((_, x)) => x.transitions@.len() == 0 && e
                                    == ProcessError::EmptyExecution,
                                Err(e2) => e2 == e,
                            }
                    }
                },
            },
    {
        // Retrieve the main request (without popping it).
        let request = authorization.peek_next()?;
        // Prepare the stack.
        let stack = self.get_stack(request.program_id)?;
        // Ensure the network ID matches.
        if request.network_id != self.network.id {
            return Err(ProcessError::NetworkMismatch);
        }
        // Ensure that the function exists.
        match self.stacks[stack].get_function(request.function_name) {
            Ok(_) => {},
            Err(_) => {
                return Err(ProcessError::MissingFunction);
            },
        }
        // Execute the function.
        let ghost auth = authorization;
        let out = run(authorization);
        match out {
            Ok((response, execution)) => {
                // Ensure the execution is not empty.
                if execution.transitions.len() == 0 {
                    assert(run.ensures((auth,), out));
                    return Err(ProcessError::EmptyExecution);
                }
                Ok((response, execution))
            },
            Err(e) => {
                assert(run.ensures((auth,), out));
                Err(e)
            },
        }
    }
}

// ----------------------------------------------------------------------------
// Verification
// ----------------------------------------------------------------------------

/// The field elements that inputs contribute to a proof's public inputs, input by input.
pub open spec fn input_fields(inputs: Seq<TransitionInput>) -> Seq<Field>
    decreases inputs.len(),
{
    if inputs.len() == 0 {
        seq![]
    } else {
        input_fields(inputs.drop_last()) + inputs.last().verifier_inputs@
    }
}

/// The field elements that outputs contribute to a proof's public inputs, output by output.
pub open spec fn output_fields(outputs: Seq<TransitionOutput>) -> Seq<Field>
    decreases outputs.len(),
{
    if outputs.len() == 0 {
        seq![]
    } else {
        output_fields(outputs.drop_last()) + outputs.last().verifier_inputs@
    }
}

/// The identifiers of outputs.
pub open spec fn output_ids(outputs: Seq<TransitionOutput>) -> Seq<Field> {
    outputs.map_values(|o: TransitionOutput| o.id)
}

/// What the transitions of called functions contribute to their caller's
/// public inputs: the fields of each callee's inputs, then its output identifiers.
pub open spec fn callee_fields(callees: Seq<Transition>) -> Seq<Field>
    decreases callees.len(),
{
    if callees.len() == 0 {
        seq![]
    } else {
        callee_fields(callees.drop_last()) + input_fields(callees.last().inputs@) + output_ids(
            callees.last().outputs@,
        )
    }
}

/// The field element of a fee: its 64-bit two's complement pattern.
pub open spec fn fee_field(fee: i64) -> Field {
    Field {
        low: (if fee < 0 {
            fee + 0x1_0000_0000_0000_0000
        } else {
            fee as int
        }) as u128,
        high: 0,
    }
}

/// The public inputs against which a transition's proof is checked: one, the
/// transition public key, the transition commitment, the fields of the
/// inputs, those of the transitions of the functions it calls, the fields of
/// the outputs, and the fee.
pub open spec fn public_inputs(t: Transition, callees: Seq<Transition>) -> Seq<Field> {
    seq![Field { low: 1, high: 0 }, t.tpk_x, t.tpk_y, t.tcm] + input_fields(t.inputs@)
        + callee_fields(callees) + output_fields(t.outputs@) + seq![fee_field(t.fee)]
}

/// The number of calls to functions among instructions, or nothing if a call
/// does not resolve.
pub open spec fn function_call_count(instructions: Seq<Instruction>) -> Option<nat>
    decreases instructions.len(),
{
    if instructions.len() == 0 {
        Some(0)
    } else {
        match function_call_count(instructions.drop_last()) {
            None => None,
            Some(n) => match instructions.last() {
                Instruction::Call(CallTarget::Function) => Some(n + 1),
                Instruction::Call(CallTarget::Unresolved) => None,
                _ => Some(n),
            },
        }
    }
}

impl Transition {
    /// Whether the transition is a coinbase.
    pub open spec fn is_coinbase(self, network: Network) -> bool {
        self.program_id == network.coinbase_program && self.function_name == network.coinbase_function
    }
}

impl Process {
    /// The transitions of the functions that the transition at `k` calls: the
    /// ones made just before it, as many as its function calls functions.
    pub open spec fn callees(self, transitions: Seq<Transition>, k: int) -> Seq<Transition> {
        let t = transitions[k];
        let n = function_call_count(self.function(t.program_id, t.function_name).instructions@)->0;
        transitions.subrange(if k - n < 0 {
            0
        } else {
            k - n
        }, k)
    }

    /// Why the transition at `k` is refused, if it is, its proof aside.
    pub open spec fn transition_error(self, transitions: Seq<Transition>, k: int) -> Option<ProcessError> {
        let t = transitions[k];
        if !t.id_matches_root {
            Some(ProcessError::WrongTransitionId)
        } else if t.inputs@.len() > self.network.max_inputs {
            Some(ProcessError::TooManyInputs)
        } else if t.outputs@.len() > self.network.max_inputs {
            Some(ProcessError::TooManyOutputs)
        } else if exists|i: int| 0 <= i < t.inputs@.len() && !(#[trigger] t.inputs@[i]).verifies {
            Some(ProcessError::InvalidInput)
        } else if exists|i: int| 0 <= i < t.outputs@.len() && !(#[trigger] t.outputs@[i]).verifies {
            Some(ProcessError::InvalidOutput)
        } else if t.is_coinbase(self.network) && t.fee >= 0 {
            Some(ProcessError::NonNegativeCoinbaseFee)
        } else if !t.is_coinbase(self.network) && t.fee < 0 {
            Some(ProcessError::NegativeFee)
        } else if !self.has_program(t.program_id) {
            Some(ProcessError::MissingProgram)
        } else if !self.has_function(t.program_id, t.function_name) {
            Some(ProcessError::MissingFunction)
        } else if function_call_count(
            self.function(t.program_id, t.function_name).instructions@,
        ) is None {
            Some(ProcessError::UnresolvedCall)
        } else if self.function(t.program_id, t.function_name).verifying_key is None {
            Some(ProcessError::MissingVerifyingKey)
        } else {
            None
        }
    }

    /// Whether `verify` may answer `accepted` on the proof check that the
    /// transition at `k` calls for.
    pub open spec fn proof_outcome<V: Fn(&ProofCheck) -> bool>(
        self,
        transitions: Seq<Transition>,
        k: int,
        verify: V,
        accepted: bool,
    ) -> bool {
        exists|c: ProofCheck|
            #[trigger] self.proof_check_of(transitions, k, c) && verify.ensures((&c,), accepted)
    }

    /// Whether checking the transitions below `k`, from the last one down
    /// as they are popped off the execution (each transition's checks, then
    /// its proof with `verify`), may end with `r` (`None` for acceptance).
    pub open spec fn transitions_outcome<V: Fn(&ProofCheck) -> bool>(
        self,
        transitions: Seq<Transition>,
        verify: V,
        k: int,
        r: Option<ProcessError>,
    ) -> bool
        decreases k,
    {
        if k <= 0 {
            r is None
        } else {
            match self.transition_error(transitions, k - 1) {
                Some(e) => r == Some(e),
                None => {
                    ||| self.proof_outcome(transitions, k - 1, verify, false) && r == Some(
                        ProcessError::InvalidTransition,
                    )
                    ||| self.proof_outcome(transitions, k - 1, verify, true)
                        && self.transitions_outcome(transitions, verify, k - 1, r)
                },
            }
        }
    }

    /// Why the process refuses an execution before looking at its
    /// transitions, if it does: the edition, emptiness, and the number of
    /// transitions against the calls of the main function.
    pub open spec fn header_error(self, execution: Execution) -> Option<ProcessError> {
        let ts = execution.transitions@;
        if execution.edition != self.network.edition {
            Some(ProcessError::WrongEdition)
        } else if ts.len() == 0 {
            Some(ProcessError::NoTransitions)
        } else if !self.has_program(ts.last().program_id) {
            Some(ProcessError::MissingProgram)
        } else if !self.has_function(ts.last().program_id, ts.last().function_name) {
            Some(ProcessError::MissingFunction)
        } else if self.function(ts.last().program_id, ts.last().function_name).number_of_calls
            != ts.len() {
            Some(ProcessError::WrongTransitionCount)
        } else {
            None
        }
    }

    /// Whether verifying an execution, with `verify` deciding each proof,
    /// may end with `r` (`None` for acceptance).
    pub open spec fn execution_outcome<V: Fn(&ProofCheck) -> bool>(
        self,
        execution: Execution,
        verify: V,
        r: Option<ProcessError>,
    ) -> bool {
        match self.header_error(execution) {
            Some(e) => r == Some(e),
            None => self.transitions_outcome(
                execution.transitions@,
                verify,
                execution.transitions@.len() as int,
                r,
            ),
        }
    }

    /// The proof check that the transition at `k` calls for.
    pub open spec fn proof_check_of(self, transitions: Seq<Transition>, k: int, c: ProofCheck) -> bool {
        &&& c.transition_index == k
        &&& c.program_id == transitions[k].program_id
        &&& c.function_name == transitions[k].function_name
        &&& c.inputs@ == public_inputs(transitions[k], self.callees(transitions, k))
        &&& self.function(transitions[k].program_id, transitions[k].function_name).verifying_key
            matches Some(key) && c.verifying_key@ == key@
        &&& c.proof@ == transitions[k].proof@
    }
}

/// Once a call fails to resolve, the count stays undefined however many
/// instructions follow.
pub proof fn lemma_unresolved_persists(s: Seq<Instruction>, k: int, m: int)
    requires
        0 <= k <= m <= s.len(),
        function_call_count(s.subrange(0, k)) is None,
    ensures
        function_call_count(s.subrange(0, m)) is None,
    decreases m - k,
{
    if m > k {
        lemma_unresolved_persists(s, k, m - 1);
        assert(s.subrange(0, m).drop_last() =~= s.subrange(0, m - 1));
    }
}

/// Appending a callee transition appends its input fields, then its output
/// identifiers: callees contribute in the order they were made.
pub proof fn lemma_callee_fields_append(callees: Seq<Transition>, t: Transition)
    ensures
        callee_fields(callees.push(t)) == callee_fields(callees) + input_fields(t.inputs@)
            + t.outputs@.map_values(|o: TransitionOutput| o.id),
{
    assert(callees.push(t).drop_last() =~= callees);
}

/// No callee contributes nothing; a single callee contributes its input
/// fields followed by its output identifiers.
pub proof fn lemma_callee_fields_small(t: Transition)
    ensures
        callee_fields(Seq::<Transition>::empty()) == Seq::<Field>::empty(),
        callee_fields(seq![t]) == input_fields(t.inputs@) + t.outputs@.map_values(
            |o: TransitionOutput| o.id,
        ),
{
    assert(seq![t].drop_last() =~= Seq::<Transition>::empty());
    assert(Seq::<Field>::empty() + input_fields(t.inputs@) =~= input_fields(t.inputs@));
}

/// Appending an input appends its fields, and appending an output appends its fields.
pub proof fn lemma_fields_append(inputs: Seq<TransitionInput>, i: TransitionInput, outputs: Seq<TransitionOutput>, o: TransitionOutput)
    ensures
        input_fields(inputs.push(i)) == input_fields(inputs) + i.verifier_inputs@,
        output_fields(outputs.push(o)) == output_fields(outputs) + o.verifier_inputs@,
        input_fields(Seq::<TransitionInput>::empty()) == Seq::<Field>::empty(),
        output_fields(Seq::<TransitionOutput>::empty()) == Seq::<Field>::empty(),
{
    assert(inputs.push(i).drop_last() =~= inputs);
    assert(outputs.push(o).drop_last() =~= outputs);
}

/// The callees of the transition at `k` are the transitions made just before
/// it, in the order they were made, as many as its function calls functions
/// (or all before it, if fewer).
pub proof fn lemma_callees_precede(p: Process, transitions: Seq<Transition>, k: int, n: nat)
    requires
        0 <= k < transitions.len(),
        function_call_count(
            p.function(transitions[k].program_id, transitions[k].function_name).instructions@,
        ) == Some(n),
    ensures
        p.callees(transitions, k).len() == if n <= k {
            n as int
        } else {
            k
        },
        forall|j: int|
            0 <= j < p.callees(transitions, k).len() ==> #[trigger] p.callees(transitions, k)[j]
                == transitions[k - p.callees(transitions, k).len() + j],
{
}

/// The public inputs of a transition's proof start with one, the transition
/// public key and the transition commitment, end with the fee, and hold in
/// between its input fields, then what its callees contribute in the order
/// they were made, then its output fields.
pub proof fn lemma_public_inputs_layout(t: Transition, callees: Seq<Transition>)
    ensures
        public_inputs(t, callees).len() == 5 + input_fields(t.inputs@).len() + callee_fields(
            callees,
        ).len() + output_fields(t.outputs@).len(),
        public_inputs(t, callees).subrange(0, 4) == seq![(Field { low: 1, high: 0 }), t.tpk_x, t.tpk_y, t.tcm],
        public_inputs(t, callees).last() == (Field {
            low: (if t.fee < 0 {
                t.fee + 0x1_0000_0000_0000_0000
            } else {
                t.fee as int
            }) as u128,
            high: 0,
        }),
        public_inputs(t, callees).subrange(4, public_inputs(t, callees).len() - 1) == input_fields(
            t.inputs@,
        ) + callee_fields(callees) + output_fields(t.outputs@),
{
    let pi = public_inputs(t, callees);
    assert(pi.subrange(0, 4) =~= seq![Field { low: 1, high: 0 }, t.tpk_x, t.tpk_y, t.tcm]);
    assert(pi.subrange(4, pi.len() - 1) =~= input_fields(t.inputs@) + callee_fields(callees)
        + output_fields(t.outputs@));
}

/// The fee check: a transition of the coinbase function of the coinbase
/// program must have a negative fee, and any other transition (another
/// function of the coinbase program included) a nonnegative one. With the
/// checks before it passed, the fee check refuses exactly these.
pub proof fn lemma_fee_check(p: Process, ts: Seq<Transition>, k: int, t: Transition)
    requires
        0 <= k < ts.len(),
        t == ts[k],
        t.id_matches_root,
        t.inputs@.len() <= p.network.max_inputs,
        t.outputs@.len() <= p.network.max_inputs,
        forall|i: int| 0 <= i < t.inputs@.len() ==> (#[trigger] t.inputs@[i]).verifies,
        forall|i: int| 0 <= i < t.outputs@.len() ==> (#[trigger] t.outputs@[i]).verifies,
    ensures
        ({
            let coinbase = t.program_id == p.network.coinbase_program && t.function_name
                == p.network.coinbase_function;
            let fee_error = p.transition_error(ts, k) == Some(ProcessError::NonNegativeCoinbaseFee)
                || p.transition_error(ts, k) == Some(ProcessError::NegativeFee);
            &&& (coinbase && t.fee >= 0) ==> p.transition_error(ts, k) == Some(
                ProcessError::NonNegativeCoinbaseFee,
            )
            &&& (!coinbase && t.fee < 0) ==> p.transition_error(ts, k) == Some(
                ProcessError::NegativeFee,
            )
            &&& (coinbase && t.fee < 0) ==> !fee_error
            &&& (!coinbase && t.fee >= 0) ==> !fee_error
        }),
{
}

/// A request that `execute` accepts is for this network, and the very program
/// it names is loaded and has the function it names.
pub proof fn lemma_execute_accepts_only_known_functions(p: Process, requests: Seq<Request>)
    requires
        p.execute_error(requests) is None,
    ensures
        requests.len() > 0,
        requests[0].network_id == p.network.id,
        exists|i: int|
            0 <= i < p.stacks@.len() && (#[trigger] p.stacks@[i]).program_id == requests[0].program_id
                && (exists|j: int|
                0 <= j < p.stacks@[i].functions@.len() && (#[trigger] p.stacks@[i].functions@[j]).name
                    == requests[0].function_name),
{
    let i = p.program_index(requests[0].program_id);
    assert(p.stacks@[i].program_id == requests[0].program_id);
    let j = p.stacks@[i].function_index(requests[0].function_name);
    assert(p.stacks@[i].functions@[j].name == requests[0].function_name);
}

/// Counts the calls to functions among a function's instructions.
pub fn count_function_calls(instructions: &Vec<Instruction>) -> (r: Result<usize, ProcessError>)
    ensures
        match r {
            Ok(n) => function_call_count(instructions@) == Some(n as nat),
            Err(e) => function_call_count(instructions@) is None && e == ProcessError::UnresolvedCall,
        },
{
    let mut n: usize = 0;
    let mut k: usize = 0;
    assert(instructions@.subrange(0, 0) =~= Seq::<Instruction>::empty());
    while k < instructions.len()
        invariant
            k <= instructions@.len(),
            n <= k,
            function_call_count(instructions@.subrange(0, k as int)) == Some(n as nat),
        decreases instructions.len() - k,
    {
        proof {
            assert(instructions@.subrange(0, k + 1).drop_last() =~= instructions@.subrange(
                0,
                k as int,
            ));
        }
        match instructions[k] {
            Instruction::Call(CallTarget::Function) => {
                n += 1;
            },
            Instruction::Call(CallTarget::Unresolved) => {
                proof {
                    lemma_unresolved_persists(
                        instructions@,
                        k + 1,
                        instructions@.len() as int,
                    );
                    assert(instructions@.subrange(0, instructions@.len() as int) =~= instructions@);
                }
                return Err(ProcessError::UnresolvedCall);
            },
            _ => {},
        }
        k += 1;
    }
    assert(instructions@.subrange(0, instructions@.len() as int) =~= instructions@);
    Ok(n)
}

/// Appends the fields of each input.
pub fn extend_with_input_fields(out: &mut Vec<Field>, inputs: &Vec<TransitionInput>)
    ensures
        final(out)@ == old(out)@ + input_fields(inputs@),
{
    let ghost start = out@;
    let mut k: usize = 0;
    assert(inputs@.subrange(0, 0) =~= Seq::<TransitionInput>::empty());
    assert(out@ =~= start + input_fields(inputs@.subrange(0, 0)));
    while k < inputs.len()
        invariant
            k <= inputs@.len(),
            out@ == start + input_fields(inputs@.subrange(0, k as int)),
        decreases inputs.len() - k,
    {
        let mut part = copy_elements(&inputs[k].verifier_inputs);
        out.append(&mut part);
        proof {
            let sub = inputs@.subrange(0, k + 1);
            assert(sub.drop_last() =~= inputs@.subrange(0, k as int));
            assert(out@ =~= start + input_fields(sub));
        }
        k += 1;
    }
    assert(inputs@.subrange(0, inputs@.len() as int) =~= inputs@);
}

/// Appends the fields of each output.
pub fn extend_with_output_fields(out: &mut Vec<Field>, outputs: &Vec<TransitionOutput>)
    ensures
        final(out)@ == old(out)@ + output_fields(outputs@),
{
    let ghost start = out@;
    let mut k: usize = 0;
    assert(outputs@.subrange(0, 0) =~= Seq::<TransitionOutput>::empty());
    assert(out@ =~= start + output_fields(outputs@.subrange(0, 0)));
    while k < outputs.len()
        invariant
            k <= outputs@.len(),
            out@ == start + output_fields(outputs@.subrange(0, k as int)),
        decreases outputs.len() - k,
    {
        let mut part = copy_elements(&outputs[k].verifier_inputs);
        out.append(&mut part);
        proof {
            let sub = outputs@.subrange(0, k + 1);
            assert(sub.drop_last() =~= outputs@.subrange(0, k as int));
            assert(out@ =~= start + output_fields(sub));
        }
        k += 1;
    }
    assert(outputs@.subrange(0, outputs@.len() as int) =~= outputs@);
}

/// Appends the identifier of each output.
pub fn extend_with_output_ids(out: &mut Vec<Field>, outputs: &Vec<TransitionOutput>)
    ensures
        final(out)@ == old(out)@ + output_ids(outputs@),
{
    let ghost start = out@;
    let mut k: usize = 0;
    while k < outputs.len()
        invariant
            k <= outputs@.len(),
            out@ == start + output_ids(outputs@.subrange(0, k as int)),
        decreases outputs.len() - k,
    {
        out.push(outputs[k].id);
        proof {
            assert(output_ids(outputs@.subrange(0, k + 1)) =~= output_ids(
                outputs@.subrange(0, k as int),
            ).push(outputs@[k as int].id));
            assert(out@ =~= start + output_ids(outputs@.subrange(0, k + 1)));
        }
        k += 1;
    }
    assert(outputs@.subrange(0, outputs@.len() as int) =~= outputs@);
}

/// Copies a vector of bytes.
pub fn copy_bytes(v: &Vec<u8>) -> (r: Vec<u8>)
    ensures
        r@ == v@,
{
    let mut r: Vec<u8> = Vec::new();
    let mut k: usize = 0;
    while k < v.len()
        invariant
            k <= v.len(),
            r@ == v@.subrange(0, k as int),
        decreases v.len() - k,
    {
        r.push(v[k]);
        k += 1;
    }
    assert(v@.subrange(0, v.len() as int) == v@);
    r
}

/// Whether every input verifies.
pub fn all_inputs_verify(inputs: &Vec<TransitionInput>) -> (r: bool)
    ensures
        r == forall|i: int| 0 <= i < inputs@.len() ==> (#[trigger] inputs@[i]).verifies,
{
    let mut k: usize = 0;
    while k < inputs.len()
        invariant
            k <= inputs@.len(),
            forall|i: int| 0 <= i < k ==> (#[trigger] inputs@[i]).verifies,
        decreases inputs.len() - k,
    {
        if !inputs[k].verifies {
            return false;
        }
        k += 1;
    }
    true
}

/// Whether every output verifies.
pub fn all_outputs_verify(outputs: &Vec<TransitionOutput>) -> (r: bool)
    ensures
        r == forall|i: int| 0 <= i < outputs@.len() ==> (#[trigger] outputs@[i]).verifies,
{
    let mut k: usize = 0;
    while k < outputs.len()
        invariant
            k <= outputs@.len(),
            forall|i: int| 0 <= i < k ==> (#[trigger] outputs@[i]).verifies,
        decreases outputs.len() - k,
    {
        if !outputs[k].verifies {
            return false;
        }
        k += 1;
    }
    true
}

impl Process {
    /// Checks the transition at `k`, which is popped with the transitions
    /// below it still queued, and computes the public inputs of its proof.
    pub fn check_transition(&self, transitions: &Vec<Transition>, k: usize) -> (r: Result<ProofCheck, ProcessError>)
        requires
            self.wf(),
            k < transitions@.len(),
        ensures
            match r {
                Ok(c) => self.transition_error(transitions@, k as int) is None && self.proof_check_of(
                    transitions@,
                    k as int,
                    c,
                ),
                Err(e) => self.transition_error(transitions@, k as int) == Some(e),
            },
    {
        let transition = &transitions[k];
        // Ensure the transition ID is correct.
        if !transition.id_matches_root {
            return Err(ProcessError::WrongTransitionId);
        }
        // Ensure the number of inputs and outputs is within the allowed range.
        if transition.inputs.len() > self.network.max_inputs {
            return Err(ProcessError::TooManyInputs);
        }
        if transition.outputs.len() > self.network.max_inputs {
            return Err(ProcessError::TooManyOutputs);
        }
        // Ensure each input and each output is valid.
        if !all_inputs_verify(&transition.inputs) {
            return Err(ProcessError::InvalidInput);
        }
        if !all_outputs_verify(&transition.outputs) {
            return Err(ProcessError::InvalidOutput);
        }
        // Ensure the fee is correct.
        let is_coinbase = transition.program_id == self.network.coinbase_program
            && transition.function_name == self.network.coinbase_function;
        if is_coinbase {
            if transition.fee >= 0 {
                return Err(ProcessError::NonNegativeCoinbaseFee);
            }
        } else {
            if transition.fee < 0 {
                return Err(ProcessError::NegativeFee);
            }
        }
        // Construct the public inputs to verify the proof.
        let mut inputs: Vec<Field> = Vec::new();
        inputs.push(Field::one());
        inputs.push(transition.tpk_x);
        inputs.push(transition.tpk_y);
        inputs.push(transition.tcm);
        // Extend the inputs with the input IDs.
        extend_with_input_fields(&mut inputs, &transition.inputs);
        let ghost after_own_inputs = inputs@;
        // Retrieve the function, and count the function calls in it.
        let s = self.get_stack(transition.program_id)?;
        let f = match self.stacks[s].get_function(transition.function_name) {
            Ok(f) => f,
            Err(e) => {
                return Err(e);
            },
        };
        let function = &self.stacks[s].functions[f];
        let num_function_calls = count_function_calls(&function.instructions)?;
        // Append the inputs and output IDs of the transitions of the called
        // functions, in the order they were made.
        let start = if k >= num_function_calls {
            k - num_function_calls
        } else {
            0
        };
        let ghost callees = transitions@.subrange(start as int, k as int);
        let mut c = start;
        assert(callees.subrange(0, 0) =~= Seq::<Transition>::empty());
        assert(inputs@ =~= after_own_inputs + callee_fields(callees.subrange(0, 0)));
        while c < k
            invariant
                start <= c <= k,
                k < transitions@.len(),
                callees == transitions@.subrange(start as int, k as int),
                inputs@ == after_own_inputs + callee_fields(
                    callees.subrange(0, c - start),
                ),
            decreases k - c,
        {
            extend_with_input_fields(&mut inputs, &transitions[c].inputs);
            extend_with_output_ids(&mut inputs, &transitions[c].outputs);
            proof {
                let sub = callees.subrange(0, c + 1 - start);
                assert(sub.drop_last() =~= callees.subrange(0, c - start));
                assert(sub.last() == transitions@[c as int]);
                assert(inputs@ =~= after_own_inputs + callee_fields(sub));
            }
            c += 1;
        }
        assert(callees.subrange(0, k - start) =~= callees);
        // Lastly, extend the inputs with the output IDs and the fee.
        extend_with_output_fields(&mut inputs, &transition.outputs);
        inputs.push(Field::from_i64_bits(transition.fee));
        // Retrieve the verifying key.
        let verifying_key = match &function.verifying_key {
            Some(key) => copy_bytes(key),
            None => {
                return Err(ProcessError::MissingVerifyingKey);
            },
        };
        proof {
            assert(inputs@ =~= public_inputs(*transition, self.callees(transitions@, k as int)));
        }
        Ok(
            ProofCheck {
                transition_index: k,
                program_id: transition.program_id,
                function_name: transition.function_name,
                verifying_key,
                inputs,
                proof: copy_bytes(&transition.proof),
            },
        )
    }

    /// The checks of an execution made before its transitions: the edition,
    /// that there are transitions, and that their number is the number of
    /// calls of the main (last) transition's function.
    pub fn verify_execution_header(&self, execution: &Execution) -> (r: Result<(), ProcessError>)
        requires
            self.wf(),
        ensures
            match r {
                Ok(()) => self.header_error(*execution) is None,
                Err(e) => self.header_error(*execution) == Some(e),
            },
    {
        // Ensure the edition matches.
        if execution.edition != self.network.edition {
            return Err(ProcessError::WrongEdition);
        }
        // Ensure the execution contains transitions.
        let n = execution.transitions.len();
        if n == 0 {
            return Err(ProcessError::NoTransitions);
        }
        // Ensure the number of transitions matches the calls of the main function.
        let transition = &execution.transitions[n - 1];
        let s = self.get_stack(transition.program_id)?;
        let f = self.stacks[s].get_function(transition.function_name)?;
        if self.stacks[s].functions[f].number_of_calls != n {
            return Err(ProcessError::WrongTransitionCount);
        }
        Ok(())
    }

    /// Verifies an execution: the header checks, then each transition from
    /// the last one down, first its own checks and then its proof, which
    /// `verify` checks under the function's verifying key against the public
    /// inputs that `check_transition` computes for the transition.
    pub fn verify_execution<V: Fn(&ProofCheck) -> bool>(&self, execution: &Execution, verify: V) -> (r: Result<(), ProcessError>)
        requires
            self.wf(),
            forall|c: &ProofCheck| verify.requires((c,)),
        ensures
            self.execution_outcome(
                *execution,
                verify,
                match r {
                    Ok(()) => None,
                    Err(e) => Some(e),
                },
            ),
    {
        self.verify_execution_header(execution)?;
        let n = execution.transitions.len();
        // Verify each transition, popping them off the end.
        let mut k = n;
        while k > 0
            invariant
                self.wf(),
                forall|c: &ProofCheck| verify.requires((c,)),
                k <= n,
                n == execution.transitions@.len(),
                self.header_error(*execution) is None,
                forall|r: Option<ProcessError>|
                    #[trigger] self.transitions_outcome(execution.transitions@, verify, k as int, r)
                        ==> self.execution_outcome(*execution, verify, r),
            decreases k,
        {
            k -= 1;
            let check = match self.check_transition(&execution.transitions, k) {
                Ok(c) => c,
                Err(e) => {
                    assert(self.transitions_outcome(execution.transitions@, verify, k + 1, Some(e)));
                    return Err(e);
                },
            };
            // Ensure the proof is valid.
            let valid = verify(&check);
            assert(self.proof_check_of(execution.transitions@, k as int, check));
            if !valid {
                assert(self.proof_outcome(execution.transitions@, k as int, verify, false));
                assert(self.transitions_outcome(
                    execution.transitions@,
                    verify,
                    k + 1,
                    Some(ProcessError::InvalidTransition),
                ));
                return Err(ProcessError::InvalidTransition);
            }
            assert(self.proof_outcome(execution.transitions@, k as int, verify, true));
            assert forall|r: Option<ProcessError>|
                #[trigger] self.transitions_outcome(execution.transitions@, verify, k as int, r)
                    implies self.execution_outcome(*execution, verify, r) by {
                assert(self.transitions_outcome(execution.transitions@, verify, k + 1, r));
            }
        }
        assert(self.transitions_outcome(execution.transitions@, verify, 0, None));
        Ok(())
    }
}

} // verus!
