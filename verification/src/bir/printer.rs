//! The textual form of BIR.
use vstd::prelude::*;

use super::instruction::{
    lemma_views, views, BasicBlock, BirBinOp, BirCompareOp, BirFunction, BirModule, BirType, Instruction, Terminator,
    TypeV, Value,
};
use crate::text::{decimal, push_char, push_decimal, push_signed, push_str, signed_decimal};

verus! {

/// The parts of a list, separated by `", "`.
pub open spec fn join(parts: Seq<Seq<char>>) -> Seq<char>
    decreases parts.len(),
{
    if parts.len() == 0 {
        Seq::empty()
    } else if parts.len() == 1 {
        parts[0]
    } else {
        join(parts.drop_last()) + ", "@ + parts.last()
    }
}

/// The text of a type.
pub open spec fn type_text(t: TypeV) -> Seq<char>
    decreases t,
{
    match t {
        TypeV::Unit => "()"@,
        TypeV::I32 => "Int32"@,
        TypeV::I64 => "Int64"@,
        TypeV::F32 => "Float32"@,
        TypeV::F64 => "Float64"@,
        TypeV::Bool => "Bool"@,
        TypeV::Struct { name, type_args } => if type_args.len() == 0 {
            name
        } else {
            name + "<"@ + types_text(type_args) + ">"@
        },
        TypeV::Array { element, size } => "["@ + type_text(*element) + "; "@ + decimal(size as nat) + "]"@,
        TypeV::TypeParam(name) => name,
        TypeV::Error => "<error>"@,
    }
}

/// The texts of a list of types, separated by `", "`.
pub open spec fn types_text(ts: Seq<TypeV>) -> Seq<char>
    decreases ts,
{
    if ts.len() == 0 {
        Seq::empty()
    } else if ts.len() == 1 {
        type_text(ts[0])
    } else {
        types_text(ts.drop_last()) + ", "@ + type_text(ts[ts.len() - 1])
    }
}

/// `%n`.
pub open spec fn value_text(v: Value) -> Seq<char> {
    "%"@ + decimal(v.0 as nat)
}

/// `%n: <type>`.
pub open spec fn typed_value_text(p: (Value, BirType)) -> Seq<char> {
    value_text(p.0) + ": "@ + type_text(p.1@)
}

/// The values of a list, separated by `", "`.
pub open spec fn values_text(vs: Seq<Value>) -> Seq<char> {
    join(Seq::new(vs.len(), |i: int| value_text(vs[i])))
}

/// The name of an arithmetic operator.
pub open spec fn binop_text(op: BirBinOp) -> Seq<char> {
    match op {
        BirBinOp::Add => "add"@,
        BirBinOp::Sub => "sub"@,
        BirBinOp::Mul => "mul"@,
        BirBinOp::Div => "div"@,
    }
}

/// The arithmetic operator that a name of the BIR text stands for.
pub open spec fn binop_named(s: Seq<char>) -> Option<BirBinOp> {
    if s == "add"@ {
        Some(BirBinOp::Add)
    } else if s == "sub"@ {
        Some(BirBinOp::Sub)
    } else if s == "mul"@ {
        Some(BirBinOp::Mul)
    } else if s == "div"@ {
        Some(BirBinOp::Div)
    } else {
        None
    }
}

/// The comparison operator that a name of the BIR text stands for.
pub open spec fn compare_named(s: Seq<char>) -> Option<BirCompareOp> {
    if s == "eq"@ {
        Some(BirCompareOp::Eq)
    } else if s == "ne"@ {
        Some(BirCompareOp::Ne)
    } else if s == "lt"@ {
        Some(BirCompareOp::Lt)
    } else if s == "gt"@ {
        Some(BirCompareOp::Gt)
    } else if s == "le"@ {
        Some(BirCompareOp::Le)
    } else if s == "ge"@ {
        Some(BirCompareOp::Ge)
    } else {
        None
    }
}

/// The name of a comparison operator.
pub open spec fn compare_text(op: BirCompareOp) -> Seq<char> {
    match op {
        BirCompareOp::Eq => "eq"@,
        BirCompareOp::Ne => "ne"@,
        BirCompareOp::Lt => "lt"@,
        BirCompareOp::Gt => "gt"@,
        BirCompareOp::Le => "le"@,
        BirCompareOp::Ge => "ge"@,
    }
}

/// ` type_args=[<types>]` when there are type arguments, nothing otherwise.
pub open spec fn type_args_text(ts: Seq<TypeV>) -> Seq<char> {
    if ts.len() == 0 {
        Seq::empty()
    } else {
        " type_args=["@ + types_text(ts) + "]"@
    }
}

/// `name: %v` for each field, separated by `", "`.
pub open spec fn fields_text(fs: Seq<(String, Value)>) -> Seq<char> {
    join(Seq::new(fs.len(), |i: int| fs[i].0@ + ": "@ + value_text(fs[i].1)))
}

/// The text of an instruction (without indentation or line break).
pub open spec fn instruction_text(inst: Instruction) -> Seq<char> {
    match inst {
        Instruction::Literal { result, value, ty } => value_text(result) + " = literal "@ + signed_decimal(value as int)
            + " : "@ + type_text(ty@),
        Instruction::BinaryOp { result, op, lhs, rhs, ty } => value_text(result) + " = binary_op "@ + binop_text(op) + " "@
            + value_text(lhs) + ", "@ + value_text(rhs) + " : "@ + type_text(ty@),
        Instruction::Call { result, func_name, args, type_args, ty } => value_text(result) + " = call @"@ + func_name@
            + "("@ + values_text(args@) + ")"@ + type_args_text(views(type_args@)) + " : "@ + type_text(ty@),
        Instruction::Compare { result, op, lhs, rhs, ty } => value_text(result) + " = compare "@ + compare_text(op) + " "@
            + value_text(lhs) + ", "@ + value_text(rhs) + " : "@ + type_text(ty@),
        Instruction::Not { result, operand } => value_text(result) + " = not "@ + value_text(operand) + " : Bool"@,
        Instruction::Cast { result, operand, from_ty, to_ty } => value_text(result) + " = cast "@ + value_text(operand)
            + " : "@ + type_text(from_ty@) + " -> "@ + type_text(to_ty@),
        Instruction::StructInit { result, struct_name, fields, type_args, ty } => value_text(result) + " = struct_init @"@
            + struct_name@ + " { "@ + fields_text(fields@) + " }"@ + type_args_text(views(type_args@)) + " : "@ + type_text(ty@),
        Instruction::FieldGet { result, object, field, ty, .. } => value_text(result) + " = field_get "@ + value_text(object)
            + ", \""@ + field@ + "\" : "@ + type_text(ty@),
        Instruction::FieldSet { result, object, field, value, ty } => value_text(result) + " = field_set "@ + value_text(
            object,
        ) + ", \""@ + field@ + "\", "@ + value_text(value) + " : "@ + type_text(ty@),
        Instruction::ArrayInit { result, ty, elements } => value_text(result) + " = array_init ["@ + values_text(elements@)
            + "] : "@ + type_text(ty@),
        Instruction::ArrayGet { result, ty, array, index, array_size } => value_text(result) + " = array_get "@ + value_text(
            array,
        ) + ", "@ + value_text(index) + " : "@ + type_text(ty@) + " (size "@ + decimal(array_size as nat) + ")"@,
        Instruction::ArraySet { result, ty, array, index, value, array_size } => value_text(result) + " = array_set "@
            + value_text(array) + ", "@ + value_text(index) + ", "@ + value_text(value) + " : "@ + type_text(ty@) + " (size "@
            + decimal(array_size as nat) + ")"@,
    }
}

/// `(<parts>)` when there are parts, nothing otherwise.
pub open spec fn parenthesized(parts: Seq<Seq<char>>) -> Seq<char> {
    if parts.len() == 0 {
        Seq::empty()
    } else {
        "("@ + join(parts) + ")"@
    }
}

/// The typed values of a list, one part each.
pub open spec fn typed_parts(ps: Seq<(Value, BirType)>) -> Seq<Seq<char>> {
    Seq::new(ps.len(), |i: int| typed_value_text(ps[i]))
}

/// The parts of a `br_break`: the loop variables, then the break value if any.
pub open spec fn break_parts(args: Seq<(Value, BirType)>, value: Option<(Value, BirType)>) -> Seq<Seq<char>> {
    match value {
        Some(v) => typed_parts(args).push("value "@ + typed_value_text(v)),
        None => typed_parts(args),
    }
}

/// The text of a terminator.
pub open spec fn terminator_text(t: Terminator) -> Seq<char> {
    match t {
        Terminator::Return(v) => "return "@ + value_text(v),
        Terminator::ReturnVoid => "return_void"@,
        Terminator::Br { target, args } => "br bb"@ + decimal(target as nat) + parenthesized(typed_parts(args@)),
        Terminator::CondBr { cond, then_bb, else_bb } => "cond_br "@ + value_text(cond) + ", bb"@ + decimal(then_bb as nat)
            + ", bb"@ + decimal(else_bb as nat),
        Terminator::BrBreak { header_bb, exit_bb, args, value } => "br_break bb"@ + decimal(header_bb as nat) + " -> bb"@
            + decimal(exit_bb as nat) + parenthesized(break_parts(args@, value)),
        Terminator::BrContinue { header_bb, args } => "br_continue bb"@ + decimal(header_bb as nat) + parenthesized(
            typed_parts(args@),
        ),
    }
}

/// The lines of a list of instructions, each indented by four spaces.
pub open spec fn instructions_text(is: Seq<Instruction>) -> Seq<char>
    decreases is.len(),
{
    if is.len() == 0 {
        Seq::empty()
    } else {
        instructions_text(is.drop_last()) + "    "@ + instruction_text(is.last()) + "\n"@
    }
}

/// The text of a block: its label line, its instructions, its terminator.
pub open spec fn block_text(b: BasicBlock) -> Seq<char> {
    "bb"@ + decimal(b.label as nat) + parenthesized(typed_parts(b.params@)) + ":\n"@ + instructions_text(b.instructions@)
        + "    "@ + terminator_text(b.terminator) + "\n"@
}

/// The texts of a list of blocks, one after the other.
pub open spec fn blocks_text(bs: Seq<BasicBlock>) -> Seq<char>
    decreases bs.len(),
{
    if bs.len() == 0 {
        Seq::empty()
    } else {
        blocks_text(bs.drop_last()) + block_text(bs.last())
    }
}

/// `<T, U>` for a generic function, nothing otherwise.
pub open spec fn type_params_text(ps: Seq<String>) -> Seq<char> {
    if ps.len() == 0 {
        Seq::empty()
    } else {
        "<"@ + join(Seq::new(ps.len(), |i: int| ps[i]@)) + ">"@
    }
}

/// The text of a function.
pub open spec fn function_text(f: BirFunction) -> Seq<char> {
    "bir @"@ + f.name@ + type_params_text(f.type_params@) + "("@ + join(typed_parts(f.params@)) + ") -> "@ + type_text(
        f.return_type@,
    ) + " {\n"@ + blocks_text(f.blocks@) + "}\n"@
}

/// The texts of a list of functions, one after the other.
pub open spec fn functions_text(fs: Seq<BirFunction>) -> Seq<char>
    decreases fs.len(),
{
    if fs.len() == 0 {
        Seq::empty()
    } else {
        functions_text(fs.drop_last()) + function_text(fs.last())
    }
}


/// Splitting a list of functions anywhere splits its text at the same place.
#[verifier::rlimit(60)]
#[verifier::spinoff_prover]
proof fn lemma_text_split(fs: Seq<BirFunction>, k: int)
    requires
        0 <= k <= fs.len(),
    ensures
        functions_text(fs) == functions_text(fs.take(k)) + functions_text(fs.skip(k)),
    decreases fs.len(),
{
    if k == fs.len() {
        assert(fs.take(k) =~= fs);
        assert(fs.skip(k).len() == 0);
        assert(functions_text(fs) + Seq::<char>::empty() =~= functions_text(fs));
    } else {
        let a = functions_text(fs.take(k));
        let l = fs.last();
        lemma_text_split(fs.drop_last(), k);
        assert(fs.drop_last().take(k) =~= fs.take(k));
        assert(fs.skip(k).drop_last() =~= fs.drop_last().skip(k));
        assert(fs.skip(k).last() == l);
        let b = functions_text(fs.drop_last().skip(k));
        assert(functions_text(fs.skip(k)) == b + function_text(l));
        assert(a + (b + function_text(l)) =~= (a + b) + function_text(l));
    }
}

/// The first letters of the operator names, which tell them apart.
proof fn lemma_name_letters()
    ensures
        "add"@[0] == 'a' && "sub"@[0] == 's' && "mul"@[0] == 'm' && "div"@[0] == 'd',
        "eq"@[0] == 'e' && "ne"@[0] == 'n' && "lt"@[0] == 'l' && "gt"@[0] == 'g',
        "le"@[0] == 'l' && "ge"@[0] == 'g' && "lt"@[1] == 't' && "le"@[1] == 'e',
        "gt"@[1] == 't' && "ge"@[1] == 'e',
{
    reveal_strlit("add");
    reveal_strlit("sub");
    reveal_strlit("mul");
    reveal_strlit("div");
    reveal_strlit("eq");
    reveal_strlit("ne");
    reveal_strlit("lt");
    reveal_strlit("gt");
    reveal_strlit("le");
    reveal_strlit("ge");
}

/// The name of an arithmetic operator reads back as that operator.
proof fn lemma_binop_reads_back(a: BirBinOp)
    ensures
        binop_named(binop_text(a)) == Some(a),
{
    lemma_name_letters();
    assert("add"@[0] != "sub"@[0]);
    assert("add"@[0] != "mul"@[0]);
    assert("add"@[0] != "div"@[0]);
    assert("sub"@[0] != "mul"@[0]);
    assert("sub"@[0] != "div"@[0]);
    assert("mul"@[0] != "div"@[0]);
}

/// The name of a comparison operator reads back as that operator.
proof fn lemma_compare_reads_back(c: BirCompareOp)
    ensures
        compare_named(compare_text(c)) == Some(c),
{
    lemma_name_letters();
    assert("eq"@[0] != "ne"@[0] && "eq"@[0] != "lt"@[0] && "eq"@[0] != "gt"@[0]);
    assert("eq"@[0] != "le"@[0] && "eq"@[0] != "ge"@[0]);
    assert("ne"@[0] != "lt"@[0] && "ne"@[0] != "gt"@[0] && "ne"@[0] != "le"@[0] && "ne"@[0] != "ge"@[0]);
    assert("lt"@[0] != "gt"@[0] && "lt"@[1] != "le"@[1] && "lt"@[0] != "ge"@[0]);
    assert("gt"@[0] != "le"@[0] && "gt"@[1] != "ge"@[1] && "le"@[0] != "ge"@[0]);
}

/// The printed name of an operator reads back as that operator, so different operators are
/// printed differently and the text determines the operator.
pub proof fn law_operator_names_read_back(a: BirBinOp, b: BirBinOp, c: BirCompareOp, d: BirCompareOp)
    ensures
        binop_named(binop_text(a)) == Some(a),
        binop_text(a) == binop_text(b) ==> a == b,
        compare_named(compare_text(c)) == Some(c),
        compare_text(c) == compare_text(d) ==> c == d,
{
    lemma_binop_reads_back(a);
    lemma_binop_reads_back(b);
    lemma_compare_reads_back(c);
    lemma_compare_reads_back(d);
}

/// The text of one function alone is that function's text.
#[verifier::spinoff_prover]
proof fn lemma_single_function_text(fs: Seq<BirFunction>)
    requires
        fs.len() == 1,
    ensures
        functions_text(fs) == function_text(fs[0]),
{
    let f = fs[0];
    assert(fs.drop_last() =~= Seq::<BirFunction>::empty());
    assert(fs.last() == f);
    assert(functions_text(Seq::<BirFunction>::empty()) == Seq::<char>::empty());
    assert(functions_text(fs) == functions_text(fs.drop_last()) + function_text(fs.last()));
    assert(Seq::<char>::empty() + function_text(f) =~= function_text(f));
}

/// A module's text is the texts of its functions one after the other: empty for no function,
/// that function's text for one, and for any split of the functions, the text of the first
/// part followed by that of the rest.
pub proof fn law_module_text_concatenates(fs: Seq<BirFunction>, k: int)
    requires
        0 <= k <= fs.len(),
    ensures
        functions_text(Seq::<BirFunction>::empty()) == Seq::<char>::empty(),
        functions_text(fs) == functions_text(fs.take(k)) + functions_text(fs.skip(k)),
        fs.len() == 1 ==> functions_text(fs) == function_text(fs[0]),
{
    lemma_text_split(fs, k);
    if fs.len() == 1 {
        lemma_single_function_text(fs);
    }
}

/// One more part of a joined list.
pub proof fn lemma_join_step(parts: Seq<Seq<char>>, k: int)
    requires
        0 <= k < parts.len(),
    ensures
        join(parts.take(k + 1)) == if k == 0 {
            parts[0]
        } else {
            join(parts.take(k)) + ", "@ + parts[k]
        },
{
    assert(parts.take(k + 1).drop_last() =~= parts.take(k));
    assert(parts.take(k + 1)[0] == parts[0]);
}

/// One more type of a joined list of types.
proof fn lemma_types_text_step(ts: Seq<TypeV>, k: int)
    requires
        0 <= k < ts.len(),
    ensures
        types_text(ts.take(k + 1)) == if k == 0 {
            type_text(ts[0])
        } else {
            types_text(ts.take(k)) + ", "@ + type_text(ts[k])
        },
{
    assert(ts.take(k + 1).drop_last() =~= ts.take(k));
    assert(ts.take(k + 1)[0] == ts[0]);
}

/// Appends the text of a type.
fn push_type(out: &mut String, ty: &BirType)
    ensures
        final(out)@ == old(out)@ + type_text(ty@),
    decreases ty,
{
    let ghost start = out@;
    match ty {
        BirType::Unit => push_str(out, "()"),
        BirType::I32 => push_str(out, "Int32"),
        BirType::I64 => push_str(out, "Int64"),
        BirType::F32 => push_str(out, "Float32"),
        BirType::F64 => push_str(out, "Float64"),
        BirType::Bool => push_str(out, "Bool"),
        BirType::Struct { name, type_args } => {
            push_str(out, name.as_str());
            if type_args.len() > 0 {
                push_str(out, "<");
                push_types(out, type_args);
                push_str(out, ">");
            }
            proof { lemma_views(type_args@); }
        },
        BirType::Array { element, size } => {
            push_str(out, "[");
            push_type(out, element);
            push_str(out, "; ");
            push_decimal(out, *size);
            push_str(out, "]");
        },
        BirType::TypeParam(name) => push_str(out, name.as_str()),
        BirType::Error => push_str(out, "<error>"),
    }
    assert(out@ =~= start + type_text(ty@));
}

/// Appends the texts of a list of types, separated by `", "`.
fn push_types(out: &mut String, ts: &Vec<BirType>)
    ensures
        final(out)@ == old(out)@ + types_text(views(ts@)),
    decreases ts,
{
    let ghost start = out@;
    let ghost vs = views(ts@);
    proof { lemma_views(ts@); }
    let mut k: usize = 0;
    assert(vs.take(0) =~= Seq::<TypeV>::empty());
    while k < ts.len()
        invariant
            k <= ts@.len(),
            vs == views(ts@),
            vs.len() == ts@.len(),
            forall|i: int| 0 <= i < ts@.len() ==> #[trigger] vs[i] == ts@[i]@,
            out@ == start + types_text(vs.take(k as int)),
        decreases ts@.len() - k,
    {
        assert(decreases_to!(ts => ts@[k as int]));
        proof { lemma_types_text_step(vs, k as int); }
        if k > 0 {
            push_str(out, ", ");
        }
        push_type(out, &ts[k]);
        k = k + 1;
    }
    assert(vs.take(ts@.len() as int) =~= vs);
}

/// The text of a type.
pub fn format_type(ty: &BirType) -> (r: String)
    ensures
        r@ == type_text(ty@),
{
    let mut r = String::new();
    push_type(&mut r, ty);
    assert(r@ =~= type_text(ty@));
    r
}

/// The name of an arithmetic operator.
pub fn format_binop(op: &BirBinOp) -> (r: &'static str)
    ensures
        r@ == binop_text(*op),
{
    match op {
        BirBinOp::Add => "add",
        BirBinOp::Sub => "sub",
        BirBinOp::Mul => "mul",
        BirBinOp::Div => "div",
    }
}

/// The name of a comparison operator.
pub fn format_compare_op(op: &BirCompareOp) -> (r: &'static str)
    ensures
        r@ == compare_text(*op),
{
    match op {
        BirCompareOp::Eq => "eq",
        BirCompareOp::Ne => "ne",
        BirCompareOp::Lt => "lt",
        BirCompareOp::Gt => "gt",
        BirCompareOp::Le => "le",
        BirCompareOp::Ge => "ge",
    }
}

/// Appends `%n`.
fn push_value(out: &mut String, v: &Value)
    ensures
        final(out)@ == old(out)@ + value_text(*v),
{
    let ghost start = out@;
    push_str(out, "%");
    push_decimal(out, v.0 as u64);
    assert(out@ =~= start + value_text(*v));
}

/// `%n` as a new string.
pub fn format_value(v: &Value) -> (r: String)
    ensures
        r@ == value_text(*v),
{
    let mut r = String::new();
    push_value(&mut r, v);
    assert(r@ =~= value_text(*v));
    r
}

/// Appends `%n: <type>`.
fn push_typed_value(out: &mut String, p: &(Value, BirType))
    ensures
        final(out)@ == old(out)@ + typed_value_text(*p),
{
    let ghost start = out@;
    push_value(out, &p.0);
    push_str(out, ": ");
    push_type(out, &p.1);
    assert(out@ =~= start + typed_value_text(*p));
}

/// Appends the values of a list, separated by `", "`.
fn push_values(out: &mut String, vs: &Vec<Value>)
    ensures
        final(out)@ == old(out)@ + values_text(vs@),
{
    let ghost start = out@;
    let ghost parts = Seq::new(vs@.len(), |i: int| value_text(vs@[i]));
    let mut k: usize = 0;
    assert(parts.take(0) =~= Seq::<Seq<char>>::empty());
    while k < vs.len()
        invariant
            k <= vs@.len(),
            parts == Seq::new(vs@.len(), |i: int| value_text(vs@[i])),
            out@ == start + join(parts.take(k as int)),
        decreases vs@.len() - k,
    {
        proof { lemma_join_step(parts, k as int); }
        if k > 0 {
            push_str(out, ", ");
        }
        push_value(out, &vs[k]);
        k = k + 1;
    }
    assert(parts.take(vs@.len() as int) =~= parts);
}

/// Appends the typed values of a list, separated by `", "`.
fn push_typed_values(out: &mut String, ps: &Vec<(Value, BirType)>)
    ensures
        final(out)@ == old(out)@ + join(typed_parts(ps@)),
{
    let ghost start = out@;
    let ghost parts = typed_parts(ps@);
    let mut k: usize = 0;
    assert(parts.take(0) =~= Seq::<Seq<char>>::empty());
    while k < ps.len()
        invariant
            k <= ps@.len(),
            parts == typed_parts(ps@),
            out@ == start + join(parts.take(k as int)),
        decreases ps@.len() - k,
    {
        proof { lemma_join_step(parts, k as int); }
        if k > 0 {
            push_str(out, ", ");
        }
        push_typed_value(out, &ps[k]);
        k = k + 1;
    }
    assert(parts.take(ps@.len() as int) =~= parts);
}

/// Appends `(<typed values>)` when the list is not empty.
fn push_parenthesized_typed_values(out: &mut String, ps: &Vec<(Value, BirType)>)
    ensures
        final(out)@ == old(out)@ + parenthesized(typed_parts(ps@)),
{
    let ghost start = out@;
    if ps.len() > 0 {
        push_str(out, "(");
        push_typed_values(out, ps);
        push_str(out, ")");
    }
    assert(out@ =~= start + parenthesized(typed_parts(ps@)));
}

/// Appends `name: %v` for each field, separated by `", "`.
fn push_fields(out: &mut String, fs: &Vec<(String, Value)>)
    ensures
        final(out)@ == old(out)@ + fields_text(fs@),
{
    let ghost start = out@;
    let ghost parts = Seq::new(fs@.len(), |i: int| fs@[i].0@ + ": "@ + value_text(fs@[i].1));
    let mut k: usize = 0;
    assert(parts.take(0) =~= Seq::<Seq<char>>::empty());
    while k < fs.len()
        invariant
            k <= fs@.len(),
            parts == Seq::new(fs@.len(), |i: int| fs@[i].0@ + ": "@ + value_text(fs@[i].1)),
            out@ == start + join(parts.take(k as int)),
        decreases fs@.len() - k,
    {
        proof { lemma_join_step(parts, k as int); }
        if k > 0 {
            push_str(out, ", ");
        }
        let ghost before = out@;
        push_str(out, fs[k].0.as_str());
        push_str(out, ": ");
        push_value(out, &fs[k].1);
        assert(out@ =~= before + parts[k as int]);
        k = k + 1;
    }
    assert(parts.take(fs@.len() as int) =~= parts);
}

/// Appends ` type_args=[<types>]` when there are type arguments.
fn push_type_args(out: &mut String, ts: &Vec<BirType>)
    ensures
        final(out)@ == old(out)@ + type_args_text(views(ts@)),
{
    let ghost start = out@;
    proof { lemma_views(ts@); }
    if ts.len() > 0 {
        push_str(out, " type_args=[");
        push_types(out, ts);
        push_str(out, "]");
    }
    assert(out@ =~= start + type_args_text(views(ts@)));
}


/// Appends the text of an instruction.
#[verifier::spinoff_prover]
#[verifier::rlimit(30)]
fn push_instruction(out: &mut String, inst: &Instruction)
    ensures
        final(out)@ == old(out)@ + instruction_text(*inst),
{
    let ghost start = out@;
    match inst {
        Instruction::Literal { result, value, ty } => {
            push_value(out, result);
            push_str(out, " = literal ");
            push_signed(out, *value);
            push_str(out, " : ");
            push_type(out, ty);
            assert(out@ =~= start + instruction_text(*inst));
        },
        Instruction::BinaryOp { result, op, lhs, rhs, ty } => {
            push_value(out, result);
            push_str(out, " = binary_op ");
            push_str(out, format_binop(op));
            push_str(out, " ");
            push_value(out, lhs);
            push_str(out, ", ");
            push_value(out, rhs);
            push_str(out, " : ");
            push_type(out, ty);
            assert(out@ =~= start + instruction_text(*inst));
        },
        Instruction::Call { result, func_name, args, type_args, ty } => {
            push_value(out, result);
            push_str(out, " = call @");
            push_str(out, func_name.as_str());
            push_str(out, "(");
            push_values(out, args);
            push_str(out, ")");
            push_type_args(out, type_args);
            push_str(out, " : ");
            push_type(out, ty);
            assert(out@ =~= start + instruction_text(*inst));
        },
        Instruction::Compare { result, op, lhs, rhs, ty } => {
            push_value(out, result);
            push_str(out, " = compare ");
            push_str(out, format_compare_op(op));
            push_str(out, " ");
            push_value(out, lhs);
            push_str(out, ", ");
            push_value(out, rhs);
            push_str(out, " : ");
            push_type(out, ty);
            assert(out@ =~= start + instruction_text(*inst));
        },
        Instruction::Not { result, operand } => {
            push_value(out, result);
            push_str(out, " = not ");
            push_value(out, operand);
            push_str(out, " : Bool");
            assert(out@ =~= start + instruction_text(*inst));
        },
        Instruction::Cast { result, operand, from_ty, to_ty } => {
            push_value(out, result);
            push_str(out, " = cast ");
            push_value(out, operand);
            push_str(out, " : ");
            push_type(out, from_ty);
            push_str(out, " -> ");
            push_type(out, to_ty);
            assert(out@ =~= start + instruction_text(*inst));
        },
        Instruction::StructInit { result, struct_name, fields, type_args, ty } => {
            push_value(out, result);
            push_str(out, " = struct_init @");
            push_str(out, struct_name.as_str());
            push_str(out, " { ");
            push_fields(out, fields);
            push_str(out, " }");
            push_type_args(out, type_args);
            push_str(out, " : ");
            push_type(out, ty);
            assert(out@ =~= start + instruction_text(*inst));
        },
        Instruction::FieldGet { result, object, field, ty, .. } => {
            push_value(out, result);
            push_str(out, " = field_get ");
            push_value(out, object);
            push_str(out, ", \"");
            push_str(out, field.as_str());
            push_str(out, "\" : ");
            push_type(out, ty);
            assert(out@ =~= start + instruction_text(*inst));
        },
        Instruction::FieldSet { result, object, field, value, ty } => {
            push_value(out, result);
            push_str(out, " = field_set ");
            push_value(out, object);
            push_str(out, ", \"");
            push_str(out, field.as_str());
            push_str(out, "\", ");
            push_value(out, value);
            push_str(out, " : ");
            push_type(out, ty);
            assert(out@ =~= start + instruction_text(*inst));
        },
        Instruction::ArrayInit { result, ty, elements } => {
            push_value(out, result);
            push_str(out, " = array_init [");
            push_values(out, elements);
            push_str(out, "] : ");
            push_type(out, ty);
            assert(out@ =~= start + instruction_text(*inst));
        },
        Instruction::ArrayGet { result, ty, array, index, array_size } => {
            push_value(out, result);
            push_str(out, " = array_get ");
            push_value(out, array);
            push_str(out, ", ");
            push_value(out, index);
            push_str(out, " : ");
            push_type(out, ty);
            push_str(out, " (size ");
            push_decimal(out, *array_size);
            push_str(out, ")");
            assert(out@ =~= start + instruction_text(*inst));
        },
        Instruction::ArraySet { result, ty, array, index, value, array_size } => {
            push_value(out, result);
            push_str(out, " = array_set ");
            push_value(out, array);
            push_str(out, ", ");
            push_value(out, index);
            push_str(out, ", ");
            push_value(out, value);
            push_str(out, " : ");
            push_type(out, ty);
            push_str(out, " (size ");
            push_decimal(out, *array_size);
            push_str(out, ")");
            assert(out@ =~= start + instruction_text(*inst));
        },
    }
}

/// Appends the parts of a `br_break`, separated by `", "`, in brackets when there are any.
fn push_break_parts(out: &mut String, args: &Vec<(Value, BirType)>, value: &Option<(Value, BirType)>)
    ensures
        final(out)@ == old(out)@ + parenthesized(break_parts(args@, *value)),
{
    let ghost start = out@;
    let ghost parts = break_parts(args@, *value);
    match value {
        None => {
            push_parenthesized_typed_values(out, args);
        },
        Some(v) => {
            let ghost tp = typed_parts(args@);
            assert(parts == tp.push("value "@ + typed_value_text(*v)));
            push_str(out, "(");
            push_typed_values(out, args);
            let ghost mid = out@;
            if args.len() > 0 {
                push_str(out, ", ");
            }
            push_str(out, "value ");
            push_typed_value(out, v);
            push_str(out, ")");
            proof {
                assert(parts.drop_last() =~= tp);
                if tp.len() > 0 {
                    assert(join(parts) == join(tp) + ", "@ + parts.last());
                } else {
                    assert(parts.len() == 1);
                }
            }
        },
    }
    assert(out@ =~= start + parenthesized(parts));
}

/// Appends the text of a terminator.
fn push_terminator(out: &mut String, t: &Terminator)
    ensures
        final(out)@ == old(out)@ + terminator_text(*t),
{
    let ghost start = out@;
    match t {
        Terminator::Return(v) => {
            push_str(out, "return ");
            push_value(out, v);
        },
        Terminator::ReturnVoid => {
            push_str(out, "return_void");
        },
        Terminator::Br { target, args } => {
            push_str(out, "br bb");
            push_decimal(out, *target as u64);
            push_parenthesized_typed_values(out, args);
        },
        Terminator::CondBr { cond, then_bb, else_bb } => {
            push_str(out, "cond_br ");
            push_value(out, cond);
            push_str(out, ", bb");
            push_decimal(out, *then_bb as u64);
            push_str(out, ", bb");
            push_decimal(out, *else_bb as u64);
        },
        Terminator::BrBreak { header_bb, exit_bb, args, value } => {
            push_str(out, "br_break bb");
            push_decimal(out, *header_bb as u64);
            push_str(out, " -> bb");
            push_decimal(out, *exit_bb as u64);
            push_break_parts(out, args, value);
        },
        Terminator::BrContinue { header_bb, args } => {
            push_str(out, "br_continue bb");
            push_decimal(out, *header_bb as u64);
            push_parenthesized_typed_values(out, args);
        },
    }
    assert(out@ =~= start + terminator_text(*t));
}

/// Appends the lines of a list of instructions.
fn push_instructions(out: &mut String, is: &Vec<Instruction>)
    ensures
        final(out)@ == old(out)@ + instructions_text(is@),
{
    let ghost start = out@;
    let mut k: usize = 0;
    assert(is@.take(0) =~= Seq::<Instruction>::empty());
    while k < is.len()
        invariant
            k <= is@.len(),
            out@ == start + instructions_text(is@.take(k as int)),
        decreases is@.len() - k,
    {
        assert(is@.take(k + 1).drop_last() =~= is@.take(k as int));
        push_str(out, "    ");
        push_instruction(out, &is[k]);
        push_str(out, "\n");
        k = k + 1;
        assert(out@ =~= start + instructions_text(is@.take(k as int)));
    }
    assert(is@.take(is@.len() as int) =~= is@);
}

/// Appends the text of a block.
fn push_block(out: &mut String, b: &BasicBlock)
    ensures
        final(out)@ == old(out)@ + block_text(*b),
{
    let ghost start = out@;
    push_str(out, "bb");
    push_decimal(out, b.label as u64);
    push_parenthesized_typed_values(out, &b.params);
    push_str(out, ":\n");
    push_instructions(out, &b.instructions);
    push_str(out, "    ");
    push_terminator(out, &b.terminator);
    push_str(out, "\n");
    assert(out@ =~= start + block_text(*b));
}

/// Appends `<T, U>` for a generic function.
fn push_type_params(out: &mut String, ps: &Vec<String>)
    ensures
        final(out)@ == old(out)@ + type_params_text(ps@),
{
    let ghost start = out@;
    let ghost parts = Seq::new(ps@.len(), |i: int| ps@[i]@);
    if ps.len() > 0 {
        push_str(out, "<");
        let mut k: usize = 0;
        assert(parts.take(0) =~= Seq::<Seq<char>>::empty());
        while k < ps.len()
            invariant
                k <= ps@.len(),
                parts == Seq::new(ps@.len(), |i: int| ps@[i]@),
                out@ == start + "<"@ + join(parts.take(k as int)),
            decreases ps@.len() - k,
        {
            proof { lemma_join_step(parts, k as int); }
            if k > 0 {
                push_str(out, ", ");
            }
            push_str(out, ps[k].as_str());
            k = k + 1;
        }
        assert(parts.take(ps@.len() as int) =~= parts);
        push_str(out, ">");
    }
    assert(out@ =~= start + type_params_text(ps@));
}

/// Appends the text of a function.
fn push_function(out: &mut String, f: &BirFunction)
    ensures
        final(out)@ == old(out)@ + function_text(*f),
{
    let ghost start = out@;
    push_str(out, "bir @");
    push_str(out, f.name.as_str());
    push_type_params(out, &f.type_params);
    push_str(out, "(");
    push_typed_values(out, &f.params);
    push_str(out, ") -> ");
    push_type(out, &f.return_type);
    push_str(out, " {\n");
    let ghost before_blocks = out@;
    let mut k: usize = 0;
    assert(f.blocks@.take(0) =~= Seq::<BasicBlock>::empty());
    while k < f.blocks.len()
        invariant
            k <= f.blocks@.len(),
            out@ == before_blocks + blocks_text(f.blocks@.take(k as int)),
        decreases f.blocks@.len() - k,
    {
        assert(f.blocks@.take(k + 1).drop_last() =~= f.blocks@.take(k as int));
        push_block(out, &f.blocks[k]);
        k = k + 1;
        assert(out@ =~= before_blocks + blocks_text(f.blocks@.take(k as int)));
    }
    assert(f.blocks@.take(f.blocks@.len() as int) =~= f.blocks@);
    push_str(out, "}\n");
    assert(out@ =~= start + function_text(*f));
}

/// The text of a module: each of its functions in turn.
pub fn print_module(module: &BirModule) -> (r: String)
    ensures
        r@ == functions_text(module.functions@),
{
    let mut out = String::new();
    let mut k: usize = 0;
    assert(module.functions@.take(0) =~= Seq::<BirFunction>::empty());
    while k < module.functions.len()
        invariant
            k <= module.functions@.len(),
            out@ == functions_text(module.functions@.take(k as int)),
        decreases module.functions@.len() - k,
    {
        assert(module.functions@.take(k + 1).drop_last() =~= module.functions@.take(k as int));
        push_function(&mut out, &module.functions[k]);
        k = k + 1;
    }
    assert(module.functions@.take(module.functions@.len() as int) =~= module.functions@);
    out
}

} // verus!
