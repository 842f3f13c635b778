use strella::registers::analyze_string_mutability;
use strella::registers::global_loads;
use strella::registers::new_string_table;
use strella::registers::Constant;
use strella::registers::Instruction;
use strella::registers::OpCode;
use strella::registers::Proto;

fn instr(op_code: OpCode, a: i32, b: Option<i32>, c: Option<i32>, bx: Option<u32>) -> Instruction {
    Instruction { op_code, a, b, c, bx }
}

fn no_constants() -> Proto {
    Proto { constants: vec![] }
}

#[test]
fn loading_the_global_tracks_the_target_register() {
    let proto = Proto { constants: vec![Constant::Str(b"require".to_vec())] };
    let mut regs: Vec<i32> = vec![];
    global_loads(
        &mut regs,
        &instr(OpCode::GetGlobal, 0, None, None, Some(0)),
        &proto,
        &b"require".to_vec(),
    );
    assert_eq!(regs, vec![0]);
}

#[test]
fn loading_another_global_tracks_nothing() {
    let proto = Proto { constants: vec![Constant::Str(b"print".to_vec())] };
    let mut regs: Vec<i32> = vec![];
    global_loads(
        &mut regs,
        &instr(OpCode::GetGlobal, 0, None, None, Some(0)),
        &proto,
        &b"require".to_vec(),
    );
    assert_eq!(regs, Vec::<i32>::new());
}

#[test]
fn moving_a_tracked_register_transfers_the_tracking() {
    let mut regs: Vec<i32> = vec![1];
    global_loads(
        &mut regs,
        &instr(OpCode::Move, 3, Some(1), None, None),
        &no_constants(),
        &b"require".to_vec(),
    );
    assert_eq!(regs, vec![3]);
}

#[test]
fn overwriting_a_tracked_register_drops_it() {
    let mut regs: Vec<i32> = vec![0, 1];
    global_loads(
        &mut regs,
        &instr(OpCode::Loadk, 1, None, None, Some(0)),
        &no_constants(),
        &b"require".to_vec(),
    );
    assert_eq!(regs, vec![0]);
}

#[test]
fn moving_an_untracked_source_untracks_the_destination() {
    let mut regs: Vec<i32> = vec![5];
    global_loads(
        &mut regs,
        &instr(OpCode::Move, 5, Some(3), None, None),
        &no_constants(),
        &b"require".to_vec(),
    );
    assert_eq!(regs, Vec::<i32>::new());
}

#[test]
fn loading_a_different_global_untracks_the_destination() {
    let proto = Proto { constants: vec![Constant::Str(b"print".to_vec())] };
    let mut regs: Vec<i32> = vec![0];
    global_loads(
        &mut regs,
        &instr(OpCode::GetGlobal, 0, None, None, Some(0)),
        &proto,
        &b"require".to_vec(),
    );
    assert_eq!(regs, Vec::<i32>::new());
}

#[test]
fn analyze_call_attributes_no_call() {
    assert!(strella::registers::analyze_call(
        &vec![0],
        &instr(OpCode::Move, 1, Some(0), None, None),
    )
    .is_none());
    assert!(strella::registers::analyze_call(
        &vec![0],
        &instr(OpCode::Call, 1, None, None, None),
    )
    .is_none());
}

#[test]
fn load_nil_clears_a_whole_register_range() {
    let mut regs: Vec<i32> = vec![0, 1, 2, 3];
    global_loads(
        &mut regs,
        &instr(OpCode::LoadNil, 1, Some(2), None, None),
        &no_constants(),
        &b"require".to_vec(),
    );
    assert_eq!(regs, vec![0, 3]);
}

#[test]
fn unrelated_instructions_leave_the_tracking_alone() {
    let mut regs: Vec<i32> = vec![0];
    global_loads(
        &mut regs,
        &instr(OpCode::Call, 0, None, None, None),
        &no_constants(),
        &b"require".to_vec(),
    );
    assert_eq!(regs, vec![0]);
}

#[test]
fn loading_a_string_constant_records_its_register() {
    let proto = Proto { constants: vec![Constant::Str(b"hello.lua".to_vec())] };
    let mut table = new_string_table();
    analyze_string_mutability(
        &mut table,
        &instr(OpCode::Loadk, 2, None, None, Some(0)),
        &proto,
    );
    assert_eq!(table.get(&2), Some(&b"hello.lua".to_vec()));
}

#[test]
fn loading_a_non_string_constant_records_nothing() {
    let proto = Proto { constants: vec![Constant::NonString] };
    let mut table = new_string_table();
    analyze_string_mutability(
        &mut table,
        &instr(OpCode::Loadk, 2, None, None, Some(0)),
        &proto,
    );
    assert!(!table.contains_key(&2));
}

#[test]
fn moving_a_recorded_string_transfers_its_bytes() {
    let proto = Proto { constants: vec![Constant::Str(b"hello.lua".to_vec())] };
    let mut table = new_string_table();
    analyze_string_mutability(
        &mut table,
        &instr(OpCode::Loadk, 2, None, None, Some(0)),
        &proto,
    );
    analyze_string_mutability(
        &mut table,
        &instr(OpCode::Move, 5, Some(2), None, None),
        &proto,
    );
    assert!(!table.contains_key(&2));
    assert_eq!(table.get(&5), Some(&b"hello.lua".to_vec()));
}

#[test]
fn exposing_a_recorded_register_drops_its_string() {
    let proto = Proto { constants: vec![Constant::Str(b"hello.lua".to_vec())] };
    let mut table = new_string_table();
    analyze_string_mutability(
        &mut table,
        &instr(OpCode::Loadk, 2, None, None, Some(0)),
        &proto,
    );
    analyze_string_mutability(
        &mut table,
        &instr(OpCode::SetGlobal, 2, None, None, None),
        &proto,
    );
    assert!(!table.contains_key(&2));
}

#[test]
fn loading_a_non_string_constant_clears_a_recorded_destination() {
    let proto = Proto {
        constants: vec![Constant::Str(b"hello.lua".to_vec()), Constant::NonString],
    };
    let mut table = new_string_table();
    analyze_string_mutability(&mut table, &instr(OpCode::Loadk, 2, None, None, Some(0)), &proto);
    analyze_string_mutability(&mut table, &instr(OpCode::Loadk, 2, None, None, Some(1)), &proto);
    assert!(!table.contains_key(&2));
}

#[test]
fn moving_an_unrecorded_source_clears_the_destination() {
    let proto = Proto { constants: vec![Constant::Str(b"hello.lua".to_vec())] };
    let mut table = new_string_table();
    analyze_string_mutability(&mut table, &instr(OpCode::Loadk, 5, None, None, Some(0)), &proto);
    analyze_string_mutability(&mut table, &instr(OpCode::Move, 5, Some(3), None, None), &proto);
    assert!(!table.contains_key(&5));
}

#[test]
fn arithmetic_clears_a_recorded_destination() {
    let proto = Proto { constants: vec![Constant::Str(b"hello.lua".to_vec())] };
    let mut table = new_string_table();
    analyze_string_mutability(&mut table, &instr(OpCode::Loadk, 2, None, None, Some(0)), &proto);
    analyze_string_mutability(&mut table, &instr(OpCode::Add, 2, Some(0), Some(1), None), &proto);
    assert!(!table.contains_key(&2));
}

#[test]
fn concat_drops_the_target_and_every_operand() {
    let proto = Proto {
        constants: vec![
            Constant::Str(b"a".to_vec()),
            Constant::Str(b"b".to_vec()),
            Constant::Str(b"c".to_vec()),
        ],
    };
    let mut table = new_string_table();
    analyze_string_mutability(&mut table, &instr(OpCode::Loadk, 0, None, None, Some(0)), &proto);
    analyze_string_mutability(&mut table, &instr(OpCode::Loadk, 1, None, None, Some(1)), &proto);
    analyze_string_mutability(&mut table, &instr(OpCode::Loadk, 4, None, None, Some(2)), &proto);
    analyze_string_mutability(
        &mut table,
        &instr(OpCode::Concat, 0, Some(1), Some(2), None),
        &proto,
    );
    assert!(!table.contains_key(&0));
    assert!(!table.contains_key(&1));
    assert!(table.contains_key(&4));
}
