use cf::js_ast::AssignmentOperator::{Addition, BitwiseXOR, Other, Subtraction};
use cf::js_ast::{
    AssignmentOperator, JsExpression, JsBinaryOperator, Program, JsStatement, JsSwitchCase,
    SwitchStatement,
};
use cf::vm_opcode_mapper::{
    analyze_program, analyze_vm_opcodes, get_default_opcode_map, vm_switches_found, OpcodesError, VmAnalysisError, VmInstructionType, VmOpcodeAnalyzer,
};

fn this_prop(name: &str) -> JsExpression {
    JsExpression::StaticMember(Box::new(JsExpression::This), name.to_string())
}

fn num(v: i64) -> JsExpression {
    JsExpression::NumericLiteral(v)
}

/// `this.h[this.g ^ k]`
fn memory_cell(k: i64) -> JsExpression {
    JsExpression::ComputedMember(
        Box::new(this_prop("h")),
        Box::new(JsExpression::Binary(
            JsBinaryOperator::BitwiseXOR,
            Box::new(this_prop("g")),
            Box::new(num(k)),
        )),
    )
}

fn assign(op: AssignmentOperator, right: JsExpression) -> JsStatement {
    JsStatement::Expression(JsExpression::Assignment(op, Box::new(right)))
}

fn update() -> JsStatement {
    JsStatement::Expression(JsExpression::Update)
}

/// `this.h.<method>(args)`
fn memory_call(method: &str, args: Vec<JsExpression>) -> JsExpression {
    JsExpression::Call(
        Box::new(JsExpression::StaticMember(Box::new(this_prop("h")), method.to_string())),
        args,
    )
}

fn case(k: i64, consequent: Vec<JsStatement>) -> JsSwitchCase {
    JsSwitchCase { test: Some(num(k)), consequent }
}

/// The syntax tree of a small register VM: a constructor whose `c` method
/// loops over a switch with seventeen opcode handlers.
fn test_vm_program() -> Program {
    let cases = vec![
        case(0, vec![JsStatement::Return]),
        case(1, vec![assign(Addition, num(2)), JsStatement::Break]),
        case(2, vec![assign(Other, memory_cell(52)), JsStatement::Break]),
        case(3, vec![assign(Other, this_prop("a")), update(), JsStatement::Break]),
        case(4, vec![assign(BitwiseXOR, memory_cell(52)), update(), JsStatement::Break]),
        case(5, vec![assign(Addition, memory_cell(52)), update(), JsStatement::Break]),
        case(6, vec![assign(Subtraction, memory_cell(52)), update(), JsStatement::Break]),
        case(7, vec![assign(Other, num(42)), update(), JsStatement::Break]),
        case(8, vec![JsStatement::Expression(memory_call("pop", vec![])), update(), JsStatement::Break]),
        case(
            9,
            vec![
                JsStatement::If(
                    JsExpression::Binary(
                        JsBinaryOperator::Equality,
                        Box::new(this_prop("a")),
                        Box::new(num(0)),
                    ),
                    Box::new(update()),
                    None,
                ),
                JsStatement::Break,
            ],
        ),
        case(
            10,
            vec![JsStatement::Expression(memory_call("push", vec![num(0)])), update(), JsStatement::Break],
        ),
        case(
            11,
            vec![
                JsStatement::VariableDeclaration(vec![memory_call("pop", vec![])]),
                JsStatement::Expression(memory_call("push", vec![this_prop("a")])),
                assign(Other, JsExpression::Other),
                update(),
                JsStatement::Break,
            ],
        ),
        case(
            12,
            vec![
                assign(
                    Other,
                    JsExpression::StaticMember(Box::new(this_prop("h")), "length".to_string()),
                ),
                update(),
                JsStatement::Break,
            ],
        ),
        case(13, vec![assign(Other, this_prop("a")), update(), JsStatement::Break]),
        case(14, vec![assign(Other, memory_cell(70)), update(), JsStatement::Break]),
        case(15, vec![assign(Other, memory_cell(70)), JsStatement::Break]),
        case(16, vec![update(), update(), JsStatement::Break]),
    ];
    let interpreter = JsExpression::Function(vec![JsStatement::While(Box::new(JsStatement::Block(vec![
        JsStatement::Switch(SwitchStatement { cases }),
    ])))]);
    Program {
        body: vec![JsStatement::FunctionDeclaration(vec![
            assign(AssignmentOperator::Other, num(0)),
            assign(AssignmentOperator::Other, JsExpression::Array(vec![])),
            assign(AssignmentOperator::Other, num(0)),
            assign(AssignmentOperator::Other, interpreter),
        ])],
    }
}

const TEST_VM: &str = r#"
    function VM() {
        this.g = 0;
        this.h = [];
        this.a = 0;
        this.c = function() {
            while (this.g < 256) {
                switch (this[this.g ^ 52]) {
                    case 0: return;
                    case 1: this.g += 2; break;
                    case 2: this.a = this.h[this.g ^ 52]; break;
                    case 3: this.h[this.g ^ 52] = this.a; this.g++; break;
                    case 4: this.a ^= this.h[this.g ^ 52]; this.g++; break;
                    case 5: this.a += this.h[this.g ^ 52]; this.g++; break;
                    case 6: this.a -= this.h[this.g ^ 52]; this.g++; break;
                    case 7: this.a = 42; this.g++; break;
                    case 8: this.h.pop(); this.g++; break;
                    case 9: if (this.a == 0) this.g++; break;
                    case 10: this.h.push(0); this.g++; break;
                    case 11: var t = this.h.pop(); this.h.push(this.a); this.a = t; this.g++; break;
                    case 12: this.a = this.h.length; this.g++; break;
                    case 13: this.h[this.g ^ 70] = this.a; this.g++; break;
                    case 14: this.a = this.h[this.g ^ 70]; this.g++; break;
                    case 15: this.g = this.h[this.g ^ 70]; break;
                    case 16: this.a++; this.g++; break;
                }
            }
        };
    }
    "#;

#[test]
fn test_analyze_vm_opcodes() {
    let mapping = analyze_vm_opcodes(TEST_VM).unwrap();
    assert!(!mapping.opcode_to_type.is_empty());
    assert!(mapping.opcode_to_type.len() >= 10);
    assert_eq!(mapping.opcode_to_type.get(&0), Some(&VmInstructionType::Return));
    assert_eq!(mapping.opcode_to_type.get(&4), Some(&VmInstructionType::XorOp));
}

#[test]
fn parsed_script_matches_the_hand_built_model() {
    let parsed = analyze_vm_opcodes(TEST_VM).unwrap();
    let built = analyze_program(&test_vm_program()).unwrap();
    assert_eq!(parsed.opcode_to_type, built.opcode_to_type);
    assert_eq!(parsed.opcode_to_name, built.opcode_to_name);
    assert_eq!(parsed.state_property_names.memory_prop.as_deref(), Some("h"));
    assert_eq!(parsed.state_property_names.pointer_prop.as_deref(), Some("g"));
    assert_eq!(parsed.state_property_names.accumulator_prop.as_deref(), Some("a"));
}

#[test]
fn unparsable_or_switchless_scripts_are_errors() {
    assert!(matches!(analyze_vm_opcodes("function ("), Err(OpcodesError::Parse(_))));
    assert!(matches!(analyze_vm_opcodes("var x = 1;"), Err(OpcodesError::NoVmSwitch)));
}

#[test]
fn analysis_of_a_hand_built_model() {
    let program = test_vm_program();
    let mapping = analyze_program(&program).unwrap();
    assert!(!mapping.opcode_to_type.is_empty());
    assert!(mapping.opcode_to_type.len() >= 10);
    assert_eq!(mapping.opcode_to_type.get(&0), Some(&VmInstructionType::Return));
    assert_eq!(mapping.opcode_to_type.get(&4), Some(&VmInstructionType::XorOp));
}

#[test]
fn test_default_map() {
    let default = get_default_opcode_map();
    assert_eq!(default.opcode_to_type.len(), 16);
    assert_eq!(default.opcode_to_type.get(&0), Some(&VmInstructionType::Return));
}

#[test]
fn default_map_names_and_registers() {
    let default = get_default_opcode_map();
    assert_eq!(default.opcode_to_name.len(), 16);
    assert_eq!(default.opcode_to_name.get(&4).map(|s| s.as_str()), Some("OP_4_XorOp"));
    assert_eq!(default.opcode_to_name.get(&15).map(|s| s.as_str()), Some("OP_15_ConditionalJump"));
    assert_eq!(default.state_property_names.memory_prop.as_deref(), Some("h"));
    assert_eq!(default.state_property_names.pointer_prop.as_deref(), Some("g"));
    assert_eq!(default.state_property_names.accumulator_prop.as_deref(), Some("a"));
    assert!(default.heuristics_applied.is_empty());
}

#[test]
fn analysis_detects_registers_and_names_every_opcode() {
    let program = test_vm_program();
    let mapping = analyze_program(&program).unwrap();
    assert_eq!(mapping.opcode_to_type.len(), 17);
    assert_eq!(mapping.opcode_to_name.len(), 17);
    for (opcode, t) in mapping.opcode_to_type.iter() {
        let expected = format!("OP_{}_{:?}", opcode, t);
        assert_eq!(mapping.opcode_to_name.get(opcode), Some(&expected));
    }
    assert_eq!(mapping.state_property_names.memory_prop.as_deref(), Some("h"));
    assert_eq!(mapping.state_property_names.pointer_prop.as_deref(), Some("g"));
    assert_eq!(mapping.state_property_names.accumulator_prop.as_deref(), Some("a"));
}

#[test]
fn analysis_without_switch_is_refused() {
    let program = Program { body: vec![JsStatement::Expression(JsExpression::This), JsStatement::Return] };
    assert!(matches!(analyze_program(&program), Err(VmAnalysisError::NoVmSwitch)));
}

#[test]
fn analyzer_keeps_the_largest_switch() {
    let small = JsStatement::Switch(SwitchStatement {
        cases: vec![case(0, vec![JsStatement::Return])],
    });
    let large = JsStatement::Switch(SwitchStatement {
        cases: vec![
            case(0, vec![JsStatement::Return]),
            case(1, vec![assign(Addition, num(1))]),
        ],
    });
    let program = Program { body: vec![small, large] };
    let allocator = oxc_allocator::Allocator::default();
    let mut analyzer = VmOpcodeAnalyzer::new(&allocator);
    let mapping = analyzer.analyze(&program);
    assert_eq!(analyzer.case_count, 2);
    assert_eq!(mapping.opcode_to_type.len(), 2);
}

#[test]
fn instruction_type_names() {
    assert_eq!(VmInstructionType::XorOp.display_name(), "XOR_OP");
    assert_eq!(VmInstructionType::ConditionalJump.display_name(), "CONDITIONAL_JUMP");
    assert_eq!(VmInstructionType::MemoryRead.debug_name(), "MemoryRead");
}

#[test]
fn search_lists_a_switch_in_an_invoked_function() {
    let found = vm_switches_found("(function(){switch(k){case 1:break;case 2:break;}})()").unwrap();
    assert_eq!(found, vec![2]);
}

#[test]
fn search_keeps_the_first_of_equal_switches() {
    let found = vm_switches_found(
        "[function(){switch(a){case 1:break;}}, function(){switch(b){case 2:break;}}];",
    )
    .unwrap();
    assert_eq!(found, vec![1]);
}

#[test]
fn search_lists_a_top_level_switch_once() {
    assert_eq!(vm_switches_found("switch(x){case 1:case 2:}").unwrap(), vec![2]);
}

#[test]
fn search_goes_through_try_catch_finally_in_order() {
    let js = "try { switch(a){case 1:} } catch (e) { switch(b){case 1:case 2:} } finally { switch(c){case 1:case 2:case 3:} }";
    assert_eq!(vm_switches_found(js).unwrap(), vec![1, 2, 3]);
    assert!(vm_switches_found("function (").is_none());
}

#[test]
fn search_enters_class_methods_only() {
    let js = "var C = class { static x = 1; m() { switch(q){case 1:case 2:} } };";
    assert_eq!(vm_switches_found(js).unwrap(), vec![2]);
}

#[test]
fn error_messages() {
    assert_eq!(
        OpcodesError::NoVmSwitch.message(),
        "No VM switch statement found (>15 cases required)"
    );
    assert_eq!(OpcodesError::Parse("x".to_string()).message(), "Parse errors: x");
}
