use aura_lang::function_signature::{
    LinearFunctionSignature, LinearParam, LinearReturn, ParamMode, ReturnMode, SignatureContext, SignatureValidator,
};
use aura_lang::types::Type;

#[test]
fn test_linear_param_creation() {
    let param = LinearParam::new("model".to_string(), Type::Model, true, ParamMode::Owned);
    assert_eq!(param.name, "model");
    assert!(param.is_linear);
    assert_eq!(param.mode, ParamMode::Owned);
}

#[test]
fn test_signature_validation() {
    let param = LinearParam::new("x".to_string(), Type::Model, true, ParamMode::Owned);
    let ret = LinearReturn::new(Type::Unit, false, ReturnMode::Unit);
    let sig = LinearFunctionSignature::new("consume".to_string(), vec![param], ret);
    let result = SignatureValidator::validate_signature(&sig);
    assert!(result.is_ok());
}

#[test]
fn test_body_validation_missing_consume() {
    let param = LinearParam::new("x".to_string(), Type::Model, true, ParamMode::Owned);
    let ret = LinearReturn::new(Type::Unit, false, ReturnMode::Unit);
    let sig = LinearFunctionSignature::new("test".to_string(), vec![param], ret);
    let result = SignatureValidator::validate_body(&sig, &[], &[], None);
    assert!(result.is_err());
}

#[test]
fn test_body_validation_with_consume() {
    let param = LinearParam::new("x".to_string(), Type::Model, true, ParamMode::Owned);
    let ret = LinearReturn::new(Type::Unit, false, ReturnMode::Unit);
    let sig = LinearFunctionSignature::new("test".to_string(), vec![param], ret);
    let result = SignatureValidator::validate_body(&sig, &["x"], &[], None);
    assert!(result.is_ok());
}

#[test]
fn test_call_validation() {
    let param = LinearParam::new("x".to_string(), Type::Model, true, ParamMode::Owned);
    let ret = LinearReturn::new(Type::Unit, false, ReturnMode::Unit);
    let sig = LinearFunctionSignature::new("consume".to_string(), vec![param], ret);
    let args = vec![("model_var".to_string(), Type::Model)];
    let result = SignatureValidator::validate_call(&sig, &args);
    assert!(result.is_ok());
}

#[test]
fn test_call_validation_type_mismatch() {
    let param = LinearParam::new("x".to_string(), Type::Model, true, ParamMode::Owned);
    let ret = LinearReturn::new(Type::Unit, false, ReturnMode::Unit);
    let sig = LinearFunctionSignature::new("consume".to_string(), vec![param], ret);
    let args = vec![("num_var".to_string(), Type::U32)];
    let result = SignatureValidator::validate_call(&sig, &args);
    assert!(result.is_err());
}

#[test]
fn test_signature_context() {
    let mut ctx = SignatureContext::new();
    let param = LinearParam::new("x".to_string(), Type::Model, true, ParamMode::Owned);
    let ret = LinearReturn::new(Type::Unit, false, ReturnMode::Unit);
    let sig = LinearFunctionSignature::new("consume".to_string(), vec![param], ret);
    ctx.register_signature(sig);
    assert!(ctx.get_signature("consume").is_some());
    assert!(ctx.get_signature("nonexistent").is_none());
}

#[test]
fn test_borrowed_params() {
    let param1 = LinearParam::new("x".to_string(), Type::Model, true, ParamMode::Owned);
    let param2 = LinearParam::new("y".to_string(), Type::U32, false, ParamMode::BorrowedImmut);
    let ret = LinearReturn::new(Type::Unit, false, ReturnMode::Unit);
    let sig = LinearFunctionSignature::new("func".to_string(), vec![param1, param2], ret);
    assert_eq!(sig.linear_params(), vec!["x"]);
    assert_eq!(sig.borrowed_params(), vec!["y"]);
}

fn sig_returning(ret_ty: Type, mode: ReturnMode) -> LinearFunctionSignature {
    let p = LinearParam::new("m".to_string(), Type::Model, true, ParamMode::Owned);
    let q = LinearParam::new("n".to_string(), Type::U32, false, ParamMode::BorrowedMut);
    LinearFunctionSignature::new("f".to_string(), vec![p, q], LinearReturn::new(ret_ty, true, mode))
}

#[test]
fn signature_and_body_messages() {
    let sig = sig_returning(Type::Model, ReturnMode::Borrowed);
    assert_eq!(
        SignatureValidator::validate_signature(&sig),
        Err(vec!["function 'f' returns a borrow of linear type 'Model' - this may create use-after-free".to_string()])
    );
    assert_eq!(
        SignatureValidator::validate_body(&sig, &[], &["n"], None),
        Err(vec![
            "linear parameter 'm' of type 'Model' is not consumed".to_string(),
            "function 'f' must return value of type 'Model'".to_string(),
        ])
    );
    assert_eq!(SignatureValidator::validate_body(&sig, &[], &[], Some("m")), Ok(()));
    assert_eq!(
        SignatureValidator::validate_body(&sig, &["m"], &[], Some("n")),
        Err(vec!["function 'f' signature expects return type 'Model' but got 'u32'".to_string()])
    );
    assert_eq!(
        SignatureValidator::validate_body(&sig, &["m"], &[], Some("zz")),
        Err(vec!["returned value 'zz' not found in parameters".to_string()])
    );
    let unit_sig = sig_returning(Type::Unit, ReturnMode::Owned);
    assert_eq!(SignatureValidator::validate_body(&unit_sig, &["m"], &[], None), Ok(()));
}

#[test]
fn call_messages_and_ranges() {
    let sig = sig_returning(Type::Unit, ReturnMode::Unit);
    assert_eq!(
        SignatureValidator::validate_call(&sig, &[("a".to_string(), Type::Model)]),
        Err(vec!["function 'f' expects 2 arguments, got 1".to_string()])
    );
    let ranged = Type::ConstrainedRange { base: Box::new(Type::U32), lo: 0, hi: 9 };
    assert_eq!(
        SignatureValidator::validate_call(&sig, &[("a".to_string(), Type::Model), ("b".to_string(), ranged)]),
        Ok(())
    );
    assert_eq!(
        SignatureValidator::validate_call(&sig, &[("a".to_string(), Type::Bool), ("b".to_string(), Type::U32)]),
        Err(vec!["argument 0 ('a') type mismatch: expected 'Model', got 'bool'".to_string()])
    );
}

#[test]
fn context_replaces_and_tracks_current() {
    let mut ctx = SignatureContext::new();
    ctx.register_signature(sig_returning(Type::Unit, ReturnMode::Unit));
    ctx.register_signature(sig_returning(Type::Model, ReturnMode::Owned));
    assert_eq!(ctx.signatures.len(), 1);
    assert!(ctx.get_signature("f").unwrap().ret.mode == ReturnMode::Owned);
    assert!(ctx.current_function().is_none());
    ctx.set_current_function(sig_returning(Type::Unit, ReturnMode::Unit));
    assert_eq!(ctx.current_function().unwrap().name, "f");
    assert_eq!(ParamMode::BorrowedMut.display(), "borrowed (mut)");
}
