use lib::field::Field;
use lib::process::{
    count_function_calls, Authorization, CallTarget, Execution, Function, Instruction, Network, Process, ProofCheck,
    ProcessError, Request, Stack, Transition, TransitionInput, TransitionOutput,
};

const MAIN: u64 = 1;
const HELPER: u64 = 2;
const CREDITS: u64 = 9;
const MINT: u64 = 90;

fn fe(v: u128) -> Field {
    Field { low: v, high: 0 }
}

fn network() -> Network {
    Network { id: 3, edition: 0, max_inputs: 2, coinbase_program: CREDITS, coinbase_function: MINT }
}

/// Program `MAIN` has function 10, which calls function 20 of the same program
/// and a closure; function 20 calls nothing. Program `CREDITS` has `MINT`.
fn process() -> Process {
    Process {
        network: network(),
        stacks: vec![
            Stack {
                program_id: MAIN,
                functions: vec![
                    Function {
                        name: 10,
                        instructions: vec![
                            Instruction::Other,
                            Instruction::Call(CallTarget::Function),
                            Instruction::Call(CallTarget::Closure),
                        ],
                        number_of_calls: 2,
                        verifying_key: Some(vec![10]),
                    },
                    Function { name: 20, instructions: vec![Instruction::Other], number_of_calls: 1, verifying_key: Some(vec![20]) },
                    Function {
                        name: 30,
                        instructions: vec![Instruction::Call(CallTarget::Unresolved)],
                        number_of_calls: 1,
                        verifying_key: Some(vec![30]),
                    },
                    Function { name: 40, instructions: vec![], number_of_calls: 1, verifying_key: None },
                ],
            },
            Stack { program_id: HELPER, functions: vec![] },
            Stack {
                program_id: CREDITS,
                functions: vec![Function { name: MINT, instructions: vec![], number_of_calls: 1, verifying_key: Some(vec![90]) }],
            },
        ],
    }
}

fn input(v: u128) -> TransitionInput {
    TransitionInput { verifier_inputs: vec![fe(v), fe(v + 1)], verifies: true }
}

fn output(v: u128) -> TransitionOutput {
    TransitionOutput { verifier_inputs: vec![fe(v)], id: fe(v + 1000), verifies: true }
}

fn transition(program_id: u64, function_name: u64, base: u128, fee: i64) -> Transition {
    Transition {
        program_id,
        function_name,
        id_matches_root: true,
        inputs: vec![input(base)],
        outputs: vec![output(base + 50)],
        fee,
        tpk_x: fe(base + 7),
        tpk_y: fe(base + 8),
        tcm: fe(base + 9),
        proof: vec![],
    }
}

fn nested_execution() -> Execution {
    Execution { edition: 0, transitions: vec![transition(MAIN, 20, 100, 0), transition(MAIN, 10, 200, 5)] }
}

fn run_ok(auth: Authorization) -> Result<(u64, Execution), ProcessError> {
    let n = auth.requests.len() as u128;
    Ok((n as u64, Execution { edition: 0, transitions: vec![transition(MAIN, 20, n, 0)] }))
}

fn run_empty(_auth: Authorization) -> Result<(u64, Execution), ProcessError> {
    Ok((0, Execution { edition: 0, transitions: vec![] }))
}

fn run_fails(_auth: Authorization) -> Result<(u64, Execution), ProcessError> {
    Err(ProcessError::MissingFunction)
}

fn run_unreachable(_auth: Authorization) -> Result<(u64, Execution), ProcessError> {
    panic!("the function must not run")
}

#[test]
fn execute_runs_a_known_function() {
    let p = process();
    let request = Request { network_id: 3, program_id: MAIN, function_name: 10 };
    let auth = Authorization { requests: vec![request, Request { network_id: 3, program_id: MAIN, function_name: 20 }] };
    let (response, execution) = p.execute(auth, run_ok).unwrap();
    assert_eq!(response, 2);
    assert_eq!(execution.transitions.len(), 1);
}

#[test]
fn execute_refuses_an_empty_run_and_passes_on_failures() {
    let p = process();
    let request = Request { network_id: 3, program_id: MAIN, function_name: 10 };
    assert!(matches!(
        p.execute(Authorization { requests: vec![request] }, run_empty),
        Err(ProcessError::EmptyExecution)
    ));
    assert!(matches!(
        p.execute(Authorization { requests: vec![request] }, run_fails),
        Err(ProcessError::MissingFunction)
    ));
}

#[test]
fn execute_refusals() {
    let p = process();
    assert!(matches!(p.execute(Authorization { requests: vec![] }, run_unreachable), Err(ProcessError::NoRequest)));
    let missing_program = Request { network_id: 3, program_id: 77, function_name: 10 };
    assert!(matches!(
        p.execute(Authorization { requests: vec![missing_program] }, run_unreachable),
        Err(ProcessError::MissingProgram)
    ));
    let wrong_network = Request { network_id: 4, program_id: MAIN, function_name: 10 };
    assert!(matches!(
        p.execute(Authorization { requests: vec![wrong_network] }, run_unreachable),
        Err(ProcessError::NetworkMismatch)
    ));
    let missing_function = Request { network_id: 3, program_id: MAIN, function_name: 11 };
    assert!(matches!(
        p.execute(Authorization { requests: vec![missing_function] }, run_unreachable),
        Err(ProcessError::MissingFunction)
    ));
}

#[test]
fn counting_function_calls() {
    assert_eq!(count_function_calls(&vec![]), Ok(0));
    assert_eq!(
        count_function_calls(&vec![
            Instruction::Call(CallTarget::Function),
            Instruction::Other,
            Instruction::Call(CallTarget::Closure),
            Instruction::Call(CallTarget::Function),
        ]),
        Ok(2)
    );
    assert_eq!(
        count_function_calls(&vec![Instruction::Call(CallTarget::Function), Instruction::Call(CallTarget::Unresolved)]),
        Err(ProcessError::UnresolvedCall)
    );
}

/// A stand-in verifier: it accepts a proof that names the verifying key and
/// the number of public inputs.
fn toy_verify(c: &ProofCheck) -> bool {
    c.proof == vec![c.verifying_key[0], c.inputs.len() as u8]
}

/// Gives each transition the proof the stand-in verifier accepts, with
/// `inputs` public inputs under `key`.
fn prove(e: &mut Execution, k: usize, key: u8, inputs: u8) {
    e.transitions[k].proof = vec![key, inputs];
}

fn accept_all(_c: &ProofCheck) -> bool {
    true
}

fn nested_proved() -> Execution {
    let mut e = nested_execution();
    prove(&mut e, 0, 20, 8);
    prove(&mut e, 1, 10, 11);
    e
}

#[test]
fn verify_nested_execution_public_inputs() {
    let p = process();
    let e = nested_proved();
    assert_eq!(p.verify_execution_header(&e), Ok(()));
    // The main transition's callee's inputs and output ids sit between its
    // own inputs and outputs.
    let main = p.check_transition(&e.transitions, 1).unwrap();
    assert_eq!(main.transition_index, 1);
    assert_eq!(main.function_name, 10);
    assert_eq!(main.verifying_key, vec![10]);
    assert_eq!(main.proof, vec![10, 11]);
    assert_eq!(
        main.inputs,
        vec![fe(1), fe(207), fe(208), fe(209), fe(200), fe(201), fe(100), fe(101), fe(1150), fe(250), fe(5)]
    );
    let callee = p.check_transition(&e.transitions, 0).unwrap();
    assert_eq!(callee.transition_index, 0);
    assert_eq!(callee.verifying_key, vec![20]);
    assert_eq!(callee.inputs, vec![fe(1), fe(107), fe(108), fe(109), fe(100), fe(101), fe(150), fe(0)]);
    assert_eq!(p.verify_execution(&e, toy_verify), Ok(()));
}

#[test]
fn verify_invalid_proofs() {
    let p = process();
    // A proof made for other public inputs is refused.
    let mut e = nested_proved();
    prove(&mut e, 1, 10, 10);
    assert_eq!(p.verify_execution(&e, toy_verify), Err(ProcessError::InvalidTransition));
    // A proof under another key is refused.
    let mut e = nested_proved();
    prove(&mut e, 0, 10, 8);
    assert_eq!(p.verify_execution(&e, toy_verify), Err(ProcessError::InvalidTransition));
    // A verifier that refuses everything refuses the main transition.
    assert_eq!(p.verify_execution(&nested_proved(), |_c: &ProofCheck| false), Err(ProcessError::InvalidTransition));
    // The main transition's proof is checked before the transitions below it.
    let mut bad_callee = nested_proved();
    bad_callee.transitions[0].inputs[0].verifies = false;
    prove(&mut bad_callee, 1, 10, 0);
    assert_eq!(p.verify_execution(&bad_callee, toy_verify), Err(ProcessError::InvalidTransition));
    prove(&mut bad_callee, 1, 10, 11);
    assert_eq!(p.verify_execution(&bad_callee, toy_verify), Err(ProcessError::InvalidInput));
}

#[test]
fn verify_coinbase_fee() {
    let p = process();
    let mut ok = Execution { edition: 0, transitions: vec![transition(CREDITS, MINT, 1, -3)] };
    prove(&mut ok, 0, 90, 8);
    let check = p.check_transition(&ok.transitions, 0).unwrap();
    assert_eq!(check.inputs.last(), Some(&Field { low: (u64::MAX - 2) as u128, high: 0 }));
    assert_eq!(p.verify_execution(&ok, toy_verify), Ok(()));
    let zero = Execution { edition: 0, transitions: vec![transition(CREDITS, MINT, 1, 0)] };
    assert_eq!(p.verify_execution(&zero, toy_verify), Err(ProcessError::NonNegativeCoinbaseFee));
    let negative = Execution { edition: 0, transitions: vec![transition(MAIN, 20, 1, -1)] };
    assert_eq!(p.verify_execution(&negative, toy_verify), Err(ProcessError::NegativeFee));
}

#[test]
fn verify_execution_refusals() {
    let p = process();
    let mut e = nested_execution();
    e.edition = 1;
    assert_eq!(p.verify_execution_header(&e), Err(ProcessError::WrongEdition));
    assert_eq!(p.verify_execution(&e, accept_all), Err(ProcessError::WrongEdition));
    let empty = Execution { edition: 0, transitions: vec![] };
    assert_eq!(p.verify_execution(&empty, accept_all), Err(ProcessError::NoTransitions));
    let single = Execution { edition: 0, transitions: vec![transition(MAIN, 10, 1, 0)] };
    assert_eq!(p.verify_execution(&single, accept_all), Err(ProcessError::WrongTransitionCount));
    let unknown = Execution { edition: 0, transitions: vec![transition(77, 10, 1, 0)] };
    assert_eq!(p.verify_execution(&unknown, accept_all), Err(ProcessError::MissingProgram));
    let no_function = Execution { edition: 0, transitions: vec![transition(HELPER, 10, 1, 0)] };
    assert_eq!(p.verify_execution(&no_function, accept_all), Err(ProcessError::MissingFunction));
    let unresolved = Execution { edition: 0, transitions: vec![transition(MAIN, 30, 1, 0)] };
    assert_eq!(p.verify_execution(&unresolved, accept_all), Err(ProcessError::UnresolvedCall));
    let no_key = Execution { edition: 0, transitions: vec![transition(MAIN, 40, 1, 0)] };
    assert_eq!(p.verify_execution(&no_key, accept_all), Err(ProcessError::MissingVerifyingKey));
}

#[test]
fn verify_transition_refusals() {
    let p = process();
    let mut e = nested_proved();
    e.transitions[1].id_matches_root = false;
    assert_eq!(p.verify_execution(&e, accept_all), Err(ProcessError::WrongTransitionId));
    let mut e = nested_execution();
    e.transitions[0].inputs = vec![input(1), input(2), input(3)];
    assert_eq!(p.verify_execution(&e, accept_all), Err(ProcessError::TooManyInputs));
    let mut e = nested_execution();
    e.transitions[0].outputs = vec![output(1), output(2), output(3)];
    assert_eq!(p.verify_execution(&e, accept_all), Err(ProcessError::TooManyOutputs));
    let mut e = nested_execution();
    e.transitions[0].inputs[0].verifies = false;
    assert_eq!(p.verify_execution(&e, accept_all), Err(ProcessError::InvalidInput));
    let mut e = nested_execution();
    e.transitions[1].outputs[0].verifies = false;
    assert_eq!(p.verify_execution(&e, accept_all), Err(ProcessError::InvalidOutput));
    // The last transition is checked first.
    let mut e = nested_execution();
    e.transitions[0].inputs[0].verifies = false;
    e.transitions[1].id_matches_root = false;
    assert_eq!(p.verify_execution(&e, accept_all), Err(ProcessError::WrongTransitionId));
}
