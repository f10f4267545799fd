//! Static analyses and tooling of the Aura language.
pub mod text;
pub mod types;
pub mod ownership_enforcement;
pub mod move_tracking;
pub mod control_flow;
pub mod capability_enforcement;
pub mod capability_validator;
pub mod diagnostics;
pub mod capability_diagnostics;
pub mod explanation_engine;
pub mod function_signature;
pub mod net_verifier;
pub mod race_detector;
pub mod debugger;
pub mod pattern_lowering;
pub mod ai_opt;
pub mod bridge;
pub mod onnx;
pub mod ast;
pub mod error;
pub mod backend;
pub mod vm;
pub mod debug;
pub mod range_proof;
pub mod capability;
pub mod sema;
pub mod checker;
pub mod shop;
pub mod c_emit;
