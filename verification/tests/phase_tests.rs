use kerf::phase::{ModuleRegistry, PhaseLevel};
use kerf::symbol::Symbol;

#[test]
fn declare_visit_instantiate_lifecycle() {
    let mut reg = ModuleRegistry::new();
    reg.declare(Symbol(1), vec![], vec![Symbol(2)]).unwrap();
    assert!(reg.instantiate(Symbol(1)).is_err());
    reg.visit(Symbol(1)).unwrap();
    reg.instantiate(Symbol(1)).unwrap();
    assert_eq!(reg.pending_instantiations(), 0);
}

#[test]
fn duplicate_declare_fails() {
    let mut reg = ModuleRegistry::new();
    reg.declare(Symbol(1), vec![], vec![]).unwrap();
    assert!(reg.declare(Symbol(1), vec![], vec![]).is_err());
}

#[test]
fn circular_dependency_detected() {
    let mut reg = ModuleRegistry::new();
    let a = Symbol(1);
    let b = Symbol(2);
    reg.declare(a, vec![b], vec![]).unwrap();
    reg.declare(b, vec![a], vec![]).unwrap();
    let err = reg.visit(a).unwrap_err();
    assert!(err.contains("模块循环依赖"), "应报循环依赖：{}", err);
    assert!(err.contains("Symbol(1)"), "环应含 A：{}", err);
    assert!(err.contains("Symbol(2)"), "环应含 B：{}", err);
}

#[test]
fn self_import_cycle_detected() {
    let mut reg = ModuleRegistry::new();
    let a = Symbol(7);
    reg.declare(a, vec![a], vec![]).unwrap();
    assert!(reg.visit(a).unwrap_err().contains("模块循环依赖"));
}

#[test]
fn diamond_dependency_is_not_a_cycle() {
    let mut reg = ModuleRegistry::new();
    let (a, b, c, d) = (Symbol(1), Symbol(2), Symbol(3), Symbol(4));
    reg.declare(a, vec![], vec![]).unwrap();
    reg.declare(b, vec![a], vec![]).unwrap();
    reg.declare(c, vec![a], vec![]).unwrap();
    reg.declare(d, vec![b, c], vec![]).unwrap();
    reg.visit(d).unwrap();
    assert!(reg.find(a).unwrap().visited);
    assert!(reg.find(b).unwrap().visited);
    assert!(reg.find(c).unwrap().visited);
    assert!(reg.find(d).unwrap().visited);
}

#[test]
fn transitive_visit_order() {
    let mut reg = ModuleRegistry::new();
    reg.declare(Symbol(1), vec![], vec![]).unwrap();
    reg.declare(Symbol(2), vec![Symbol(1)], vec![]).unwrap();
    reg.visit(Symbol(2)).unwrap();
    assert!(reg.find(Symbol(1)).unwrap().visited);
    assert!(reg.find(Symbol(2)).unwrap().visited);
}

#[test]
fn visit_is_idempotent() {
    let mut reg = ModuleRegistry::new();
    reg.declare(Symbol(1), vec![], vec![]).unwrap();
    reg.visit(Symbol(1)).unwrap();
    reg.visit(Symbol(1)).unwrap();
}

#[test]
fn cycle_message_exact_text() {
    let mut reg = ModuleRegistry::new();
    reg.declare(Symbol(1), vec![Symbol(2)], vec![]).unwrap();
    reg.declare(Symbol(2), vec![Symbol(3)], vec![]).unwrap();
    reg.declare(Symbol(3), vec![Symbol(2)], vec![]).unwrap();
    assert_eq!(
        reg.visit(Symbol(1)).unwrap_err(),
        "模块循环依赖：Symbol(2) → Symbol(3) → Symbol(2)"
    );
    // nothing on the cycle was marked visited
    assert!(!reg.find(Symbol(2)).unwrap().visited);
    assert!(!reg.find(Symbol(1)).unwrap().visited);
}

#[test]
fn undeclared_import_is_an_error() {
    let mut reg = ModuleRegistry::new();
    reg.declare(Symbol(1), vec![Symbol(9)], vec![]).unwrap();
    assert_eq!(reg.visit(Symbol(1)).unwrap_err(), "未声明的模块（Symbol 9）");
    assert_eq!(reg.visit(Symbol(5)).unwrap_err(), "未声明的模块（Symbol 5）");
    assert_eq!(reg.instantiate(Symbol(5)).unwrap_err(), "未声明的模块（Symbol 5）");
}

#[test]
fn completed_imports_stay_visited_after_a_failure() {
    let mut reg = ModuleRegistry::new();
    reg.declare(Symbol(1), vec![], vec![]).unwrap();
    reg.declare(Symbol(2), vec![Symbol(1), Symbol(3)], vec![]).unwrap();
    assert!(reg.visit(Symbol(2)).is_err());
    assert!(reg.find(Symbol(1)).unwrap().visited);
    assert!(!reg.find(Symbol(2)).unwrap().visited);
}

#[test]
fn phase_violation_and_duplicate_messages() {
    let mut reg = ModuleRegistry::new();
    reg.declare(Symbol(4), vec![], vec![]).unwrap();
    assert_eq!(
        reg.instantiate(Symbol(4)).unwrap_err(),
        "模块（Symbol 4）未 visit 即 instantiate——相位违规"
    );
    assert_eq!(
        reg.declare(Symbol(4), vec![], vec![]).unwrap_err(),
        "模块重复声明（Symbol 4）"
    );
    assert_eq!(reg.pending_instantiations(), 1);
    assert_eq!(reg.entries().len(), 1);
}

#[test]
fn phase_numbers() {
    assert_eq!(PhaseLevel::Runtime.as_u32(), 0);
    assert_eq!(PhaseLevel::Expand.as_u32(), 1);
    assert!(PhaseLevel::Runtime < PhaseLevel::Expand);
}
