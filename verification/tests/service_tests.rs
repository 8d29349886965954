use std::collections::BTreeSet;

use acir::circuit::{Circuit, ExpressionWidth, Opcode, Program, PublicInputs};
use acir::native_types::{Expression, Witness};
use acir::FieldElement as AcirField;

use acvm_server::codec::{decode, encode};
use acvm_server::dispatch::execute_program_from_witness;
use acvm_server::errors::CliError;
use acvm_server::service::{ErrorStage, RpcServerImpl, INTERNAL_ERROR_CODE};
use acvm_server::witness::{FieldElement, WitnessMap};

fn fe(last: u8) -> FieldElement {
    let mut bytes = vec![0u8; 32];
    bytes[31] = last;
    FieldElement::from_bytes(bytes).unwrap()
}

/// A circuit with one constraint, `w0 - w1 = 0`: the output witness equals
/// the input witness.
fn identity_program_bytes() -> Vec<u8> {
    let expr = Expression {
        mul_terms: vec![],
        linear_combinations: vec![
            (AcirField::one(), Witness(0)),
            (AcirField::zero() - AcirField::one(), Witness(1)),
        ],
        q_c: AcirField::zero(),
    };
    let circuit = Circuit {
        current_witness_index: 1,
        opcodes: vec![Opcode::AssertZero(expr)],
        expression_width: ExpressionWidth::Unbounded,
        private_parameters: BTreeSet::from([Witness(0)]),
        public_parameters: PublicInputs::default(),
        return_values: PublicInputs::default(),
        assert_messages: vec![],
        recursive: false,
    };
    let program = Program { functions: vec![circuit], unconstrained_functions: vec![] };
    Program::serialize_program(&program)
}

/// A circuit whose single constraint `1 = 0` cannot be satisfied.
fn unsatisfiable_program_bytes() -> Vec<u8> {
    let expr = Expression {
        mul_terms: vec![],
        linear_combinations: vec![],
        q_c: AcirField::one(),
    };
    let circuit = Circuit {
        current_witness_index: 0,
        opcodes: vec![Opcode::AssertZero(expr)],
        expression_width: ExpressionWidth::Unbounded,
        private_parameters: BTreeSet::new(),
        public_parameters: PublicInputs::default(),
        return_values: PublicInputs::default(),
        assert_messages: vec![],
        recursive: false,
    };
    let program = Program { functions: vec![circuit], unconstrained_functions: vec![] };
    Program::serialize_program(&program)
}

#[test]
fn dispatch_rejects_malformed_circuit() {
    let w = WitnessMap::new();
    let r = execute_program_from_witness(&w, b"these bytes are no circuit");
    assert!(matches!(r, Err(CliError::CircuitDeserializationError)));
}

#[test]
fn dispatch_reports_solver_failure() {
    let w = WitnessMap::new();
    let r = execute_program_from_witness(&w, &unsatisfiable_program_bytes());
    assert!(matches!(r, Err(CliError::CircuitExecutionError(_))));
}

#[test]
fn dispatch_solves_identity_circuit() {
    let mut w = WitnessMap::new();
    w.insert(0, fe(5));
    let out = execute_program_from_witness(&w, &identity_program_bytes()).unwrap();
    assert_eq!(out.len(), 2);
    assert_eq!(out.get(0).unwrap().as_bytes(), fe(5).as_bytes());
    assert_eq!(out.get(1).unwrap().as_bytes(), fe(5).as_bytes());
}

#[test]
fn run_end_to_end_identity_circuit() {
    let mut w = WitnessMap::new();
    w.insert(0, fe(5));
    let witness_bytes = encode(&w);
    let bytecode = identity_program_bytes();
    let server = RpcServerImpl;
    let response = server.run(witness_bytes.clone(), bytecode.clone()).unwrap();
    let out = decode(&response).unwrap();
    assert_eq!(out.len(), 2);
    assert_eq!(out.get(0).unwrap().as_bytes(), fe(5).as_bytes());
    assert_eq!(out.get(1).unwrap().as_bytes(), fe(5).as_bytes());
    let again = server.run(witness_bytes, bytecode).unwrap();
    assert_eq!(response, again);
}

#[test]
fn run_rejects_truncated_witness_bytes() {
    let mut w = WitnessMap::new();
    w.insert(0, fe(5));
    let mut witness_bytes = encode(&w);
    witness_bytes.pop();
    let e = RpcServerImpl.run(witness_bytes, identity_program_bytes()).unwrap_err();
    assert_eq!(e.code, INTERNAL_ERROR_CODE);
    assert_eq!(e.stage, ErrorStage::Decode);
}

#[test]
fn run_rejects_malformed_circuit_bytes() {
    let e = RpcServerImpl.run(vec![], b"junk".to_vec()).unwrap_err();
    assert_eq!(e.code, INTERNAL_ERROR_CODE);
    assert_eq!(e.stage, ErrorStage::CircuitDeserialize);
}

#[test]
fn run_reports_execution_stage_on_solver_failure() {
    let e = RpcServerImpl.run(vec![], unsatisfiable_program_bytes()).unwrap_err();
    assert_eq!(e.code, INTERNAL_ERROR_CODE);
    assert_eq!(e.stage, ErrorStage::Execute);
    assert!(e.detail.contains("Cannot satisfy constraint"));
}

#[test]
fn run_gives_identical_responses_to_identical_requests() {
    let bytecode = identity_program_bytes();
    let mut w = WitnessMap::new();
    w.insert(0, fe(9));
    let witness_bytes = encode(&w);
    let first = RpcServerImpl.run(witness_bytes.clone(), bytecode.clone()).unwrap();
    let second = RpcServerImpl.run(witness_bytes, bytecode).unwrap();
    assert_eq!(first, second);
}
