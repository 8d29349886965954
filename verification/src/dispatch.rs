//! The execution dispatcher.
//!
//! Given an already decoded witness map and raw circuit bytes, the
//! dispatcher deserializes the bytes into the solver's circuit program,
//! hands the program and a copy of the witness to the external constraint
//! solver, and maps each outcome into the library's error taxonomy. The
//! solver is an outside engine, reached only through the trusted items
//! below; its outcome is named `solve_of`, a function of the circuit
//! bytes and the logical witness alone, and the dispatcher's contract
//! pins the result to that name. The caller's witness map is never
//! mutated.
//!
//! Two narrowings of the external-collaborator surface: no
//! curve-specific black-box evaluator is available to this service, so
//! the five gates that need one (pedersen commitment and hash, schnorr,
//! multi-scalar-mul, embedded-curve add, poseidon2) fail as execution
//! errors with a "not supported" message; and no foreign-call resolver
//! is available, so a circuit that waits on a foreign call fails
//! likewise. Every other opcode, the generic black-box gates included,
//! the engine solves in full.
use vstd::prelude::*;

use std::collections::BTreeMap;

use acir::circuit::Program;
use acvm::blackbox_solver::StubbedBlackBoxSolver;
use acvm::pwg::{ACVMStatus, ACVM};
use acir::native_types::Witness;
use acir::native_types::WitnessMap as SolverWitnessMap;
use acir::FieldElement as SolverField;

use crate::errors::CliError;
use crate::witness::{map_of_kv, pairs_view, WitnessMap};

verus! {

/// Whether a byte sequence is a valid serialized circuit program. A
/// function of the bytes alone.
pub uninterp spec fn program_decodes(b: Seq<u8>) -> bool;

/// The outcome of solving the program in `bytecode` against the logical
/// witness `inputs`: the resolved (index, canonical bytes) entries, or
/// the engine's failure message. With this service's black-box evaluator
/// and no foreign-call resolution, the engine reads nothing but its two
/// arguments, so the outcome is a function of them alone.
pub uninterp spec fn solve_of(bytecode: Seq<u8>, inputs: Map<u32, Seq<u8>>) -> Result<
    Seq<(u32, Seq<u8>)>,
    Seq<char>,
>;

/// Relies on Program::deserialize_program of the acir crate: whether the
/// gzip-and-bincode decoding of a program succeeds depends on the bytes
/// alone, and the call returns its errors rather than panicking.
#[verifier::external_body]
fn bytecode_decodes(bytecode: &[u8]) -> (r: bool)
    ensures
        r == program_decodes(bytecode@),
{
    Program::deserialize_program(bytecode).is_ok()
}

/// Relies on ACVM::new, solve and finalize of the acvm crate and on the
/// witness map and field element of the acir crate: deserializes the
/// program (whole, by the precondition) and runs its first circuit, the
/// main one, on the given witness. The engine holds no state across
/// calls, so the outcome is the named `solve_of` of the bytes and the
/// logical witness: on a solved run every witness comes back as its 32
/// canonical bytes (FieldElement::to_be_bytes); a failed constraint, a
/// curve-specific black-box gate, a pending foreign or circuit call, or
/// an empty program comes back as a message. The engine offers no
/// timeout, and on crafted (though decodable) programs it can panic or
/// run a Brillig loop forever; the process around the service catches
/// panics at the request boundary.
#[verifier::external_body]
fn solve_program(bytecode: &[u8], inputs: &Vec<(u32, Vec<u8>)>) -> (r: Result<
    Vec<(u32, Vec<u8>)>,
    String,
>)
    requires
        program_decodes(bytecode@),
    ensures
        r is Ok <==> solve_of(bytecode@, map_of_kv(pairs_view(inputs@))) is Ok,
        r matches Ok(out) ==> pairs_view(out@) == solve_of(
            bytecode@,
            map_of_kv(pairs_view(inputs@)),
        )->Ok_0 && (forall|i: int| 0 <= i < out@.len() ==> (#[trigger] out@[i]).1@.len() == 32),
        r matches Err(m) ==> m@ == solve_of(bytecode@, map_of_kv(pairs_view(inputs@)))->Err_0,
{
    let witness: SolverWitnessMap = inputs.iter().map(
        |(i, v)| (Witness(*i), SolverField::from_be_bytes_reduce(v)),
    ).collect::<BTreeMap<_, _>>().into();
    let program = Program::deserialize_program(bytecode).unwrap();
    let circuit = program.functions.first().ok_or("program holds no circuit")?;
    let mut vm = ACVM::new(&StubbedBlackBoxSolver, &circuit.opcodes, witness, &program.unconstrained_functions, &circuit.assert_messages);
    match vm.solve() {
        ACVMStatus::Solved => Ok(vm.finalize().into_iter().map(|(w, f)| (w.0, f.to_be_bytes())).collect()),
        ACVMStatus::Failure(e) => Err(e.to_string()),
        status => Err(status.to_string()),
    }
}

/// Executes a serialized circuit program against a witness map.
///
/// Bytes that are no valid program fail with the deserialization error
/// and the solver is never reached: the engine wrapper's precondition
/// demands decodable bytes, so a call on any other input does not
/// verify. On a valid program the result is
/// pinned to the named solve outcome: success exactly when the solve
/// succeeds, with the solved entries as a fresh, well-formed witness
/// map; a failed solve is re-tagged as an execution error carrying the
/// engine's message unmodified, never swallowed and never retried. The
/// caller's witness map is left as it was. The original service also
/// took an optional foreign-call resolver address here; with no resolver
/// available to this service, the parameter is gone and a pending
/// foreign call is an execution failure. On a crafted (though decodable)
/// program the engine itself can panic or fail to return; the process
/// hosting the service catches such a panic at the request boundary.
pub fn execute_program_from_witness(inputs_map: &WitnessMap, bytecode: &[u8]) -> (r: Result<
    WitnessMap,
    CliError,
>)
    requires
        inputs_map.wf(),
    ensures
        !program_decodes(bytecode@) <==> (r matches Err(e) && e is CircuitDeserializationError),
        program_decodes(bytecode@) ==> ({
            let sr = solve_of(bytecode@, inputs_map@);
            &&& (r is Ok <==> sr is Ok)
            &&& (r matches Ok(w) ==> w.wf() && w@ == map_of_kv(sr->Ok_0))
            &&& (r matches Err(e) ==> (e matches CliError::CircuitExecutionError(m) && m@
                == sr->Err_0))
        }),
{
    if !bytecode_decodes(bytecode) {
        return Err(CliError::CircuitDeserializationError);
    }
    let pairs = inputs_map.to_pairs();
    match solve_program(bytecode, &pairs) {
        Ok(out) => {
            proof {
                let pv = out@.map_values(|p: (u32, Vec<u8>)| (p.0, p.1@));
                assert forall|i: int| 0 <= i < pv.len() implies (#[trigger] pv[i]).1.len()
                    == 32 by {
                    assert(out@[i].1@.len() == 32);
                }
            }
            let result = WitnessMap::from_pairs(&out).unwrap();
            Ok(result)
        },
        Err(message) => Err(CliError::CircuitExecutionError(message)),
    }
}

} // verus!
