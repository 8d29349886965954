//! The execution service's request handler.
//!
//! One operation is served: `run(witness_bytes, bytecode)`. The witness
//! bytes are decoded, the circuit is executed against them, and the
//! encoded result witness is returned. Every failure is mapped to the
//! single generic wire-level internal error code, tagged with the stage
//! that failed. The library's own code never panics; a panic escaping
//! the outside solver engine on a crafted program is caught by the
//! hosting process at the request boundary.
use vstd::prelude::*;

use crate::codec::{canonical_encoding, decode, decode_ok, encode, lemma_encode_kv_len, records_of};
use crate::dispatch::{execute_program_from_witness, program_decodes, solve_of};
use crate::errors::CliError;
use crate::witness::map_of_kv;

verus! {

/// The one wire-level error code a failed request carries: the generic
/// internal error of the JSON-RPC protocol.
pub const INTERNAL_ERROR_CODE: i64 = -32603;

/// The stage of a request that failed.
#[derive(Clone, Copy, PartialEq, Eq, Structural, Debug)]
pub enum ErrorStage {
    /// The witness bytes do not decode as a witness map.
    Decode,
    /// The circuit bytes do not deserialize as a circuit program.
    CircuitDeserialize,
    /// The solver reported a failure while executing the circuit.
    Execute,
}

/// The structured error a failed request returns: the generic internal
/// error code, the stage that failed, and a diagnostic message with no
/// internal detail beyond the solver's own words.
#[derive(Debug)]
pub struct RpcError {
    pub code: i64,
    pub stage: ErrorStage,
    pub detail: String,
}

/// The execution service endpoint.
pub struct RpcServerImpl;

impl RpcServerImpl {
    /// Handles one `run` request: decodes the witness bytes, executes the
    /// circuit program against them, and returns the encoded result
    /// witness. Malformed witness bytes fail at the decode stage and
    /// malformed circuit bytes at the deserialize stage, each with the
    /// generic internal error code and a fixed diagnostic text; on
    /// well-formed payloads the response is pinned to the named solve
    /// outcome — the canonical encoding of the solved witness, or an
    /// execute-stage error carrying the engine's message — so identical
    /// requests draw identical responses in every branch, and a
    /// successful response is itself a well-formed witness encoding.
    pub fn run(&self, witness: Vec<u8>, bytecode: Vec<u8>) -> (r: Result<Vec<u8>, RpcError>)
        ensures
            r matches Err(e) ==> e.code == INTERNAL_ERROR_CODE,
            !decode_ok(witness@) <==> (r matches Err(e) && e.stage == ErrorStage::Decode),
            decode_ok(witness@) && !program_decodes(bytecode@) <==> (r matches Err(e)
                && e.stage == ErrorStage::CircuitDeserialize),
            r matches Err(e) ==> (e.stage == ErrorStage::Decode ==> e.detail@
                == "witness bytes do not decode as a witness map"@),
            r matches Err(e) ==> (e.stage == ErrorStage::CircuitDeserialize ==> e.detail@
                == "circuit bytes do not deserialize as a program"@),
            decode_ok(witness@) && program_decodes(bytecode@) ==> ({
                let sr = solve_of(bytecode@, map_of_kv(records_of(witness@)));
                &&& (r is Ok <==> sr is Ok)
                &&& (r matches Ok(out) ==> out@ == canonical_encoding(map_of_kv(sr->Ok_0)))
                &&& (r matches Err(e) ==> e.stage == ErrorStage::Execute && e.detail@ == sr->Err_0)
            }),
            r is Ok ==> decode_ok(witness@) && program_decodes(bytecode@),
            r matches Ok(out) ==> decode_ok(out@),
    {
        let witness_map = match decode(witness.as_slice()) {
            Ok(w) => w,
            Err(_) => {
                return Err(
                    RpcError {
                        code: INTERNAL_ERROR_CODE,
                        stage: ErrorStage::Decode,
                        detail: String::from_str("witness bytes do not decode as a witness map"),
                    },
                );
            },
        };
        match execute_program_from_witness(&witness_map, bytecode.as_slice()) {
            Ok(result) => {
                let out = encode(&result);
                proof {
                    lemma_encode_kv_len(result.kv());
                    assert((36 * result.kv().len()) % 36 == 0) by (nonlinear_arith);
                }
                Ok(out)
            },
            Err(CliError::CircuitDeserializationError) => Err(
                RpcError {
                    code: INTERNAL_ERROR_CODE,
                    stage: ErrorStage::CircuitDeserialize,
                    detail: String::from_str("circuit bytes do not deserialize as a program"),
                },
            ),
            Err(CliError::CircuitExecutionError(message)) => Err(
                RpcError { code: INTERNAL_ERROR_CODE, stage: ErrorStage::Execute, detail: message },
            ),
            Err(_) => Err(
                RpcError {
                    code: INTERNAL_ERROR_CODE,
                    stage: ErrorStage::Execute,
                    detail: String::from_str("circuit execution failed"),
                },
            ),
        }
    }
}

} // verus!
