//! The compiled-form counterpart of the call-site scanner: an abstract
//! interpretation over a linear instruction stream that tracks which
//! virtual-machine registers currently alias the import primitive, and
//! which hold a known constant string. The analysis is intraprocedural and
//! deliberately unsound across conditional branches, calls, parameters and
//! upvalues: it answers the same "does this register hold the import
//! primitive here" question as the token-level scanner, one level lower.
use vstd::prelude::*;
use vstd::hash_map::HashMapWithView;

verus! {

/// The instruction kinds the register analysis distinguishes; every other
/// operation of the virtual machine falls under `Other` and leaves the
/// tracking untouched.
#[derive(Clone, Copy, Debug, PartialEq, Eq, Structural)]
pub enum OpCode {
    GetGlobal,
    Move,
    Loadk,
    LoadBool,
    LoadNil,
    GetUpval,
    SetGlobal,
    SetUpval,
    GetTable,
    NewTable,
    Add,
    Sub,
    Mul,
    Div,
    Mod,
    Pow,
    Concat,
    Unm,
    Not,
    Len,
    Closure,
    Call,
    Other,
}

/// One instruction: its operation and its register or constant operands.
/// Which operands are present depends on the operation; the analysis only
/// ever reads the ones its contract asks for.
#[derive(Clone, Copy, Debug)]
pub struct Instruction {
    pub op_code: OpCode,
    pub a: i32,
    pub b: Option<i32>,
    pub c: Option<i32>,
    pub bx: Option<u32>,
}

/// A constant of the compiled function's constant table, as far as the
/// analysis reads it: a string constant's bytes, or anything else.
#[derive(Debug)]
pub enum Constant {
    Str(Vec<u8>),
    NonString,
}

/// Mathematical image of a `Constant`.
pub ghost enum ConstantView {
    Str(Seq<u8>),
    NonString,
}

impl View for Constant {
    type V = ConstantView;

    open spec fn view(&self) -> ConstantView {
        match self {
            Constant::Str(bytes) => ConstantView::Str(bytes@),
            Constant::NonString => ConstantView::NonString,
        }
    }
}

impl DeepView for Constant {
    type V = ConstantView;

    open spec fn deep_view(&self) -> ConstantView {
        self@
    }
}

/// The part of a compiled function the analysis reads: its constant table.
#[derive(Debug)]
pub struct Proto {
    pub constants: Vec<Constant>,
}

/// Whether the instruction loads the global named `global` out of the
/// constant table.
pub open spec fn loads_global(
    instr: Instruction,
    constants: Seq<ConstantView>,
    global: Seq<u8>,
) -> bool {
    match instr.bx {
        Some(bx) => match constants[bx as int] {
            ConstantView::Str(bytes) => bytes == global,
            ConstantView::NonString => false,
        },
        None => false,
    }
}

/// What one instruction does to the set of registers that alias the
/// import primitive. This is a must-alias tracking: a register is listed
/// only while it certainly holds the global, so every instruction that
/// writes its target register first drops that register, and it is listed
/// again only when what was written is the global itself — loaded from
/// the globals, or moved from a register that was tracked.
pub open spec fn loads_update(
    regs: Seq<i32>,
    instr: Instruction,
    constants: Seq<ConstantView>,
    global: Seq<u8>,
) -> Seq<i32> {
    match instr.op_code {
        OpCode::GetGlobal => if loads_global(instr, constants, global) {
            regs.filter(|x: i32| x != instr.a).push(instr.a)
        } else {
            regs.filter(|x: i32| x != instr.a)
        },
        OpCode::Move => match instr.b {
            Some(b) => if regs.contains(b) {
                regs.filter(|x: i32| x != b).filter(|x: i32| x != instr.a).push(instr.a)
            } else {
                regs.filter(|x: i32| x != instr.a)
            },
            None => regs,
        },
        OpCode::LoadNil => match instr.b {
            Some(b) => regs.filter(|x: i32| !(instr.a <= x && x <= b)),
            None => regs,
        },
        OpCode::Loadk | OpCode::LoadBool | OpCode::GetUpval | OpCode::GetTable
        | OpCode::NewTable | OpCode::Add | OpCode::Sub | OpCode::Mul | OpCode::Div
        | OpCode::Mod | OpCode::Pow | OpCode::Concat | OpCode::Unm | OpCode::Not
        | OpCode::Len | OpCode::Closure => regs.filter(|x: i32| x != instr.a),
        _ => regs,
    }
}

/// Whether `v` holds `target`.
fn contains_i32(v: &Vec<i32>, target: i32) -> (r: bool)
    ensures
        r == v@.contains(target),
{
    let mut i: usize = 0;
    while i < v.len()
        invariant
            i <= v.len(),
            forall|m: int| 0 <= m < i ==> v@[m] != target,
        decreases v.len() - i,
    {
        if v[i] == target {
            return true;
        }
        i = i + 1;
    }
    false
}

/// Whether two byte strings are equal.
fn bytes_eq(a: &Vec<u8>, b: &Vec<u8>) -> (r: bool)
    ensures
        r == (a@ == b@),
{
    if a.len() != b.len() {
        proof {
            assert(!(a@ =~= b@));
        }
        return false;
    }
    let mut i: usize = 0;
    while i < a.len()
        invariant
            i <= a.len() == b.len(),
            forall|m: int| 0 <= m < i ==> a@[m] == b@[m],
        decreases a.len() - i,
    {
        if a[i] != b[i] {
            return false;
        }
        i = i + 1;
    }
    proof {
        assert(a@ =~= b@);
    }
    true
}

/// Keeps only the elements for which `x != target`.
fn remove_value(v: &mut Vec<i32>, target: i32)
    ensures
        final(v)@ == old(v)@.filter(|x: i32| x != target),
{
    let ghost all = v@;
    let mut kept: Vec<i32> = Vec::new();
    let mut i: usize = 0;
    while i < v.len()
        invariant
            i <= v.len(),
            all == v@,
            kept@ == all.subrange(0, i as int).filter(|x: i32| x != target),
        decreases v.len() - i,
    {
        proof {
            reveal(Seq::filter);
            assert(all.subrange(0, i + 1).drop_last() =~= all.subrange(0, i as int));
        }
        if v[i] != target {
            kept.push(v[i]);
        }
        i = i + 1;
    }
    proof {
        assert(all.subrange(0, all.len() as int) =~= all);
    }
    *v = kept;
}

/// Keeps only the elements outside the inclusive register range
/// `lo ..= hi` (an empty range keeps everything).
fn remove_range(v: &mut Vec<i32>, lo: i32, hi: i32)
    ensures
        final(v)@ == old(v)@.filter(|x: i32| !(lo <= x && x <= hi)),
{
    let ghost all = v@;
    let mut kept: Vec<i32> = Vec::new();
    let mut i: usize = 0;
    while i < v.len()
        invariant
            i <= v.len(),
            all == v@,
            kept@ == all.subrange(0, i as int).filter(|x: i32| !(lo <= x && x <= hi)),
        decreases v.len() - i,
    {
        proof {
            reveal(Seq::filter);
            assert(all.subrange(0, i + 1).drop_last() =~= all.subrange(0, i as int));
        }
        if !(lo <= v[i] && v[i] <= hi) {
            kept.push(v[i]);
        }
        i = i + 1;
    }
    proof {
        assert(all.subrange(0, all.len() as int) =~= all);
    }
    *v = kept;
}

/// Goes through one instruction and sees whether it loads the global named
/// `global`, moves it, or writes over it, updating the list of registers
/// that still hold a reference to that global. The tracking is must-alias:
/// whatever overwrites a register unlists it, and only loading or moving
/// the global itself lists one. The analysis does not consider
/// conditionals, function parameters, return values or upvalues: a
/// register assigned under a branch, or through a call, is tracked as if
/// the assignment always happened.
pub fn global_loads(
    registers_holding_global: &mut Vec<i32>,
    next_instruction: &Instruction,
    proto: &Proto,
    global: &Vec<u8>,
)
    requires
        next_instruction.op_code is GetGlobal ==> (next_instruction.bx matches Some(bx)
            && (bx as int) < proto.constants@.len()),
        next_instruction.op_code is Move ==> next_instruction.b is Some,
        next_instruction.op_code is LoadNil ==> next_instruction.b is Some,
    ensures
        final(registers_holding_global)@ == loads_update(
            old(registers_holding_global)@,
            *next_instruction,
            proto.constants.deep_view(),
            global@,
        ),
{
    match next_instruction.op_code {
        OpCode::GetGlobal => {
            let bx = next_instruction.bx.unwrap();
            let is_the_global = match &proto.constants[bx as usize] {
                Constant::Str(bytes) => bytes_eq(bytes, global),
                Constant::NonString => false,
            };
            remove_value(registers_holding_global, next_instruction.a);
            if is_the_global {
                registers_holding_global.push(next_instruction.a);
            }
        },
        OpCode::Move => {
            let b = next_instruction.b.unwrap();
            if contains_i32(registers_holding_global, b) {
                remove_value(registers_holding_global, b);
                remove_value(registers_holding_global, next_instruction.a);
                registers_holding_global.push(next_instruction.a);
            } else {
                remove_value(registers_holding_global, next_instruction.a);
            }
        },
        OpCode::LoadNil => {
            let b = next_instruction.b.unwrap();
            remove_range(registers_holding_global, next_instruction.a, b);
        },
        OpCode::Loadk | OpCode::LoadBool | OpCode::GetUpval | OpCode::GetTable
        | OpCode::NewTable | OpCode::Add | OpCode::Sub | OpCode::Mul | OpCode::Div
        | OpCode::Mod | OpCode::Pow | OpCode::Concat | OpCode::Unm | OpCode::Not
        | OpCode::Len | OpCode::Closure => {
            remove_value(registers_holding_global, next_instruction.a);
        },
        _ => {},
    }
}

/// Using the list of registers that currently hold a reference to the
/// global, figures out whether the instruction calls the global, and if it
/// does, which registers hold the call's arguments. Working that argument
/// list out is not supported: a call through a tracked register is
/// excluded by `requires`, and every other instruction attributes no call.
pub fn analyze_call(
    registers_holding_global: &Vec<i32>,
    next_instruction: &Instruction,
) -> (r: Option<Vec<i32>>)
    requires
        !(next_instruction.op_code is Call && registers_holding_global@.contains(
            next_instruction.a,
        )),
    ensures
        r is None,
{
    match next_instruction.op_code {
        OpCode::Call => None,
        _ => None,
    }
}

/// The constant-string table as the contracts speak of it: which register
/// holds which known string bytes.
pub open spec fn strings_table(m: Map<i32, Vec<u8>>) -> Map<i32, Seq<u8>> {
    Map::new(|k: i32| m.dom().contains(k), |k: i32| m[k]@)
}

/// What one instruction does to the table of registers holding a known
/// constant string. The tracking is must-alias: every instruction that
/// writes its target register first drops that register's binding, and a
/// binding is recorded only when what was written is a known string — a
/// string constant loaded from the table, or the bytes of a recorded
/// register that was moved. A register exposed as a global, an upvalue or
/// a table is dropped as well, since it can then change behind the
/// analysis's back.
pub open spec fn strings_update(
    tbl: Map<i32, Seq<u8>>,
    instr: Instruction,
    constants: Seq<ConstantView>,
) -> Map<i32, Seq<u8>> {
    match instr.op_code {
        OpCode::Loadk => match instr.bx {
            Some(bx) => match constants[bx as int] {
                ConstantView::Str(bytes) => tbl.insert(instr.a, bytes),
                ConstantView::NonString => tbl.remove(instr.a),
            },
            None => tbl,
        },
        OpCode::Move => match instr.b {
            Some(b) => if tbl.contains_key(b) {
                tbl.remove(b).insert(instr.a, tbl[b])
            } else {
                tbl.remove(instr.a)
            },
            None => tbl,
        },
        OpCode::LoadBool => tbl.remove(instr.a),
        OpCode::LoadNil => match instr.b {
            Some(b) => tbl.remove_keys(Set::new(|x: i32| instr.a <= x && x <= b)),
            None => tbl,
        },
        OpCode::Concat => match (instr.b, instr.c) {
            (Some(b), Some(c)) => tbl.remove(instr.a).remove_keys(
                Set::new(|x: i32| b <= x && x <= c),
            ),
            _ => tbl,
        },
        OpCode::GetUpval | OpCode::GetGlobal | OpCode::SetGlobal | OpCode::SetUpval
        | OpCode::GetTable | OpCode::NewTable | OpCode::Add | OpCode::Sub | OpCode::Mul
        | OpCode::Div | OpCode::Mod | OpCode::Pow | OpCode::Unm | OpCode::Not
        | OpCode::Len | OpCode::Closure => tbl.remove(instr.a),
        _ => tbl,
    }
}

/// An owned copy of a byte string.
fn copy_bytes(v: &Vec<u8>) -> (r: Vec<u8>)
    ensures
        r@ == v@,
{
    let mut out: Vec<u8> = Vec::new();
    let mut i: usize = 0;
    while i < v.len()
        invariant
            i <= v.len(),
            out@ == v@.subrange(0, i as int),
        decreases v.len() - i,
    {
        out.push(v[i]);
        proof {
            assert(out@ =~= v@.subrange(0, i + 1));
        }
        i = i + 1;
    }
    proof {
        assert(v@.subrange(0, v@.len() as int) =~= v@);
    }
    out
}

/// An empty constant-string table: no register holds a known string yet.
pub fn new_string_table() -> (m: HashMapWithView<i32, Vec<u8>>)
    ensures
        strings_table(m@) == Map::<i32, Seq<u8>>::empty(),
{
    let m = HashMapWithView::<i32, Vec<u8>>::new();
    proof {
        assert(strings_table(m@) =~= Map::<i32, Seq<u8>>::empty());
    }
    m
}

/// One key dropped from the backing map drops exactly that register from
/// the abstract table.
proof fn lemma_table_after_remove(
    before: Map<i32, Vec<u8>>,
    after: Map<i32, Vec<u8>>,
    orig: Map<i32, Vec<u8>>,
    lo: i32,
    hi: i32,
    r: i32,
)
    requires
        lo <= r <= hi,
        strings_table(before) == strings_table(orig).remove_keys(
            Set::new(|x: i32| lo <= x && x < r),
        ),
        after == before.remove(r) || (after == before && !before.dom().contains(r)),
    ensures
        strings_table(after) == strings_table(orig).remove_keys(
            Set::new(|x: i32| lo <= x && x < r + 1),
        ),
{
    let prev = Set::new(|x: i32| lo <= x && x < r);
    let now = Set::new(|x: i32| lo <= x && x < r + 1);
    let l = strings_table(after);
    let rr = strings_table(orig).remove_keys(now);
    assert forall|k: i32| l.dom().contains(k) <==> rr.dom().contains(k) by {
        assert(strings_table(before).dom().contains(k) <==> strings_table(orig).remove_keys(
            prev,
        ).dom().contains(k));
    }
    assert forall|k: i32| l.dom().contains(k) implies l[k] == rr[k] by {
        assert(strings_table(before).dom().contains(k));
        assert(strings_table(before)[k] == strings_table(orig).remove_keys(prev)[k]);
    }
    assert(l =~= rr);
}

/// Drops every register of the inclusive range `lo ..= hi` from the table
/// (an empty range drops nothing).
fn remove_string_range(m: &mut HashMapWithView<i32, Vec<u8>>, lo: i32, hi: i32)
    ensures
        strings_table(final(m)@) == strings_table(old(m)@).remove_keys(
            Set::new(|x: i32| lo <= x && x <= hi),
        ),
{
    if hi < lo {
        proof {
            assert(strings_table(m@) =~~= strings_table(m@).remove_keys(
                Set::new(|x: i32| lo <= x && x <= hi),
            ));
        }
        return ;
    }
    let mut r: i32 = lo;
    loop
        invariant_except_break
            strings_table(m@) == strings_table(old(m)@).remove_keys(
                Set::new(|x: i32| lo <= x && x < r),
            ),
        invariant
            lo <= r <= hi,
        ensures
            strings_table(m@) == strings_table(old(m)@).remove_keys(
                Set::new(|x: i32| lo <= x && x <= hi),
            ),
        decreases hi - r,
    {
        let ghost before = m@;
        let dropped = m.remove(&r);
        proof {
            if dropped is None {
                assert(m@ == before && !before.dom().contains(r));
            }
            lemma_table_after_remove(before, m@, old(m)@, lo, hi, r);
        }
        if r == hi {
            proof {
                assert(Set::new(|x: i32| lo <= x && x < r + 1) =~= Set::new(
                    |x: i32| lo <= x && x <= hi,
                ));
            }
            break ;
        }
        r = r + 1;
    }
}

/// Goes through one instruction and updates which registers still hold a
/// known constant string: strings are recorded when loaded from the
/// constant table, follow moves, and are dropped as soon as the register
/// is overwritten or exposed as a global, an upvalue or a table. The same
/// blindness to conditionals, calls and upvalues as in `global_loads`
/// applies.
pub fn analyze_string_mutability(
    constant_strings: &mut HashMapWithView<i32, Vec<u8>>,
    next_instruction: &Instruction,
    proto: &Proto,
)
    requires
        next_instruction.op_code is Loadk ==> (next_instruction.bx matches Some(bx) && (
        bx as int) < proto.constants@.len()),
        next_instruction.op_code is Move ==> next_instruction.b is Some,
        next_instruction.op_code is LoadNil ==> next_instruction.b is Some,
        next_instruction.op_code is Concat ==> next_instruction.b is Some
            && next_instruction.c is Some,
    ensures
        strings_table(final(constant_strings)@) == strings_update(
            strings_table(old(constant_strings)@),
            *next_instruction,
            proto.constants.deep_view(),
        ),
{
    match next_instruction.op_code {
        OpCode::Loadk => {
            let bx = next_instruction.bx.unwrap();
            match &proto.constants[bx as usize] {
                Constant::Str(bytes) => {
                    let copy = copy_bytes(bytes);
                    constant_strings.insert(next_instruction.a, copy);
                    proof {
                        assert(strings_table(constant_strings@) =~= strings_table(
                            old(constant_strings)@,
                        ).insert(next_instruction.a, bytes@));
                    }
                },
                Constant::NonString => {
                    constant_strings.remove(&next_instruction.a);
                    proof {
                        assert(strings_table(constant_strings@) =~= strings_table(
                            old(constant_strings)@,
                        ).remove(next_instruction.a));
                    }
                },
            }
        },
        OpCode::Move => {
            let b = next_instruction.b.unwrap();
            if constant_strings.contains_key(&b) {
                let copy = match constant_strings.get(&b) {
                    Some(v) => copy_bytes(v),
                    None => {
                        proof {
                            assert(false);
                        }
                        Vec::new()
                    },
                };
                constant_strings.remove(&b);
                constant_strings.insert(next_instruction.a, copy);
                proof {
                    assert(strings_table(constant_strings@) =~= strings_table(
                        old(constant_strings)@,
                    ).remove(b).insert(
                        next_instruction.a,
                        strings_table(old(constant_strings)@)[b],
                    ));
                }
            } else {
                constant_strings.remove(&next_instruction.a);
                proof {
                    assert(strings_table(constant_strings@) =~= strings_table(
                        old(constant_strings)@,
                    ).remove(next_instruction.a));
                }
            }
        },
        OpCode::LoadBool => {
            constant_strings.remove(&next_instruction.a);
            proof {
                assert(strings_table(constant_strings@) =~= strings_table(
                    old(constant_strings)@,
                ).remove(next_instruction.a));
            }
        },
        OpCode::LoadNil => {
            let b = next_instruction.b.unwrap();
            remove_string_range(constant_strings, next_instruction.a, b);
        },
        OpCode::Concat => {
            let b = next_instruction.b.unwrap();
            let c = next_instruction.c.unwrap();
            constant_strings.remove(&next_instruction.a);
            proof {
                assert(strings_table(constant_strings@) =~= strings_table(
                    old(constant_strings)@,
                ).remove(next_instruction.a));
            }
            remove_string_range(constant_strings, b, c);
        },
        OpCode::GetUpval | OpCode::GetGlobal | OpCode::SetGlobal | OpCode::SetUpval
        | OpCode::GetTable | OpCode::NewTable | OpCode::Add | OpCode::Sub | OpCode::Mul
        | OpCode::Div | OpCode::Mod | OpCode::Pow | OpCode::Unm | OpCode::Not
        | OpCode::Len | OpCode::Closure => {
            constant_strings.remove(&next_instruction.a);
            proof {
                assert(strings_table(constant_strings@) =~= strings_table(
                    old(constant_strings)@,
                ).remove(next_instruction.a));
            }
        },
        _ => {},
    }
}

} // verus!
