use aura_lang::capability_enforcement::{CapabilityKind, CapabilityState};
use aura_lang::capability_validator::CapabilityValidator;
use aura_lang::types::Type;

#[test]
fn test_register_socket_binding() {
    let mut validator = CapabilityValidator::new(true);
    validator.set_location(1, 0);
    let socket_type = Type::Named("Socket".to_string());
    assert!(validator.register_binding("sock".to_string(), &socket_type).is_ok());
}

#[test]
fn test_register_tensor_binding() {
    let mut validator = CapabilityValidator::new(true);
    validator.set_location(1, 0);
    let tensor_type = Type::Tensor { elem: Box::new(Type::U32), shape: None };
    assert!(validator.register_binding("t".to_string(), &tensor_type).is_ok());
}

#[test]
fn test_non_capability_type() {
    assert!(!CapabilityValidator::is_capability_type(&Type::U32));
    assert!(!CapabilityValidator::is_capability_type(&Type::Bool));
    assert!(!CapabilityValidator::is_capability_type(&Type::String));
}

#[test]
fn test_socket_capability_type() {
    let socket = Type::Named("Socket".to_string());
    assert!(CapabilityValidator::is_capability_type(&socket));
}

#[test]
fn test_use_then_consume() {
    let mut validator = CapabilityValidator::new(true);
    validator.set_location(1, 0);
    let socket_type = Type::Named("Socket".to_string());
    validator.register_binding("sock".to_string(), &socket_type).unwrap();
    validator.set_location(2, 0);
    assert!(validator.use_capability("sock").is_ok());
    validator.set_location(3, 0);
    assert!(validator.consume_capability("sock").is_ok());
}

#[test]
fn test_use_after_consume_error() {
    let mut validator = CapabilityValidator::new(true);
    validator.set_location(1, 0);
    let socket_type = Type::Named("Socket".to_string());
    validator.register_binding("sock".to_string(), &socket_type).unwrap();
    validator.set_location(2, 0);
    validator.consume_capability("sock").unwrap();
    validator.set_location(3, 0);
    assert!(validator.use_capability("sock").is_err());
}

#[test]
fn test_infer_capability_kind() {
    let socket = Type::Named("SocketHandle".to_string());
    assert_eq!(CapabilityValidator::infer_capability_kind(&socket), Some(CapabilityKind::Socket));
    let tensor = Type::Named("TensorBuffer".to_string());
    assert_eq!(CapabilityValidator::infer_capability_kind(&tensor), Some(CapabilityKind::Tensor));
    let region = Type::Named("RegionAlloc".to_string());
    assert_eq!(CapabilityValidator::infer_capability_kind(&region), Some(CapabilityKind::Region));
    let u32_type = Type::U32;
    assert_eq!(CapabilityValidator::infer_capability_kind(&u32_type), None);
}

#[test]
fn test_scope_management() {
    let mut validator = CapabilityValidator::new(true);
    validator.set_location(1, 0);
    let socket_type = Type::Named("Socket".to_string());
    validator.register_binding("sock".to_string(), &socket_type).unwrap();
    validator.enter_scope();
    validator.set_location(2, 0);
    validator.consume_capability("sock").unwrap();
    assert!(validator.exit_scope().is_ok());
}

#[test]
fn test_scope_leak_detection() {
    let mut validator = CapabilityValidator::new(true);
    validator.set_location(1, 0);
    let socket_type = Type::Named("Socket".to_string());
    validator.register_binding("sock".to_string(), &socket_type).unwrap();
    validator.enter_scope();
    assert!(validator.exit_scope().is_err());
}

#[test]
fn test_share_capability() {
    let mut validator = CapabilityValidator::new(true);
    validator.set_location(1, 0);
    let socket_type = Type::Named("Socket".to_string());
    validator.register_binding("sock".to_string(), &socket_type).unwrap();
    validator.set_location(2, 0);
    assert!(validator.share_capability("sock").is_ok());
    assert!(validator.use_capability("sock").is_ok());
}

#[test]
fn applied_and_concurrent_kinds() {
    let applied = Type::Applied { name: "ConcurrentQueue".to_string(), args: vec![] };
    assert_eq!(CapabilityValidator::infer_capability_kind(&applied), None);
    let named = Type::Named("ConcurrentQueue".to_string());
    assert_eq!(CapabilityValidator::infer_capability_kind(&named), Some(CapabilityKind::Concurrent));
    let applied = Type::Applied { name: "RegionPool".to_string(), args: vec![Type::U8] };
    assert_eq!(CapabilityValidator::infer_capability_kind(&applied), Some(CapabilityKind::Region));
    let both = Type::Named("TensorSocket".to_string());
    assert_eq!(CapabilityValidator::infer_capability_kind(&both), Some(CapabilityKind::Socket));
}

#[test]
fn untracked_names_pass_and_leak_message() {
    let mut validator = CapabilityValidator::new(false);
    assert!(validator.use_capability("ghost").is_ok());
    assert!(validator.consume_capability("ghost").is_ok());
    assert!(validator.share_capability("ghost").is_ok());
    assert!(validator.register_binding("n".to_string(), &Type::U32).is_ok());
    assert_eq!(validator.get_state("n"), None);
    validator.set_location(4, 2);
    validator.register_binding("s".to_string(), &Type::Named("Socket".to_string())).unwrap();
    assert_eq!(validator.get_state("s"), Some(CapabilityState::Fresh));
    let dup = validator.register_binding("s".to_string(), &Type::Named("Socket".to_string()));
    assert_eq!(
        dup,
        Err("capability 's' shared without proper synchronization annotation (shared at 4:2)".to_string())
    );
    let r = validator.exit_scope();
    assert_eq!(
        r,
        Err(vec!["resource leak: capability 's' not consumed before scope end (current state: fresh)".to_string()])
    );
    assert!(validator.validate_all().is_empty());
}
