//! The code generator: one tree walk over the syntax tree emitting textual
//! assembly for a stack machine, exactly as the specification function `gen`
//! describes it.
//!
//! Evaluation convention: the text generated for any expression leaves one
//! value on an explicit evaluation stack; the top-level compile pops it after
//! each statement. Identifiers live in a 208-byte stack frame, eight bytes
//! each, so at most `IDENT_CAPACITY` distinct identifiers fit; the slot of an
//! identifier is assigned at its first visit, in generation order, and never
//! changes within one compile. Each control-flow construct (`if`, `while`,
//! `for`) consumes one value of a monotonic counter and derives its branch
//! labels from it, so labels are never reused.
//!
//! The generator owns no state across compiles: the identifier table and the
//! label counter are created at the start of `Program::compile` and discarded
//! at its end, so compiling the same program twice yields byte-identical
//! text.
use crate::ast::{opt_model, seq_model, seq_size, seq_wf, Expr, ExprModel, OperatorKind, Program};
use vstd::prelude::*;
use vstd::string::StringExecFns;

verus! {

broadcast use vstd::std_specs::vec::group_vec_axioms;

/// How many distinct identifiers the fixed 208-byte frame can hold.
pub const IDENT_CAPACITY: usize = 26;

/// The compile-time failures a caller can observe. Exceeding the identifier
/// capacity of the frame is reported, never silently truncated.
#[derive(Debug, PartialEq, Eq, Clone, Copy, Structural)]
pub enum CompileError {
    ResourceExhausted,
}

/// The identifier table: names in the order their slots were assigned, so
/// the name at position `i` owns slot `i`.
pub struct IdentTable {
    pub names: Vec<Vec<u8>>,
}

impl IdentTable {
    /// The table as a sequence of names, slot order.
    pub open spec fn model(&self) -> Seq<Seq<u8>> {
        Seq::new(self.names@.len(), |i: int| self.names@[i]@)
    }

    /// Creates an empty table.
    pub fn new() -> (t: IdentTable)
        ensures
            t.model() == Seq::<Seq<u8>>::empty(),
    {
        let t = IdentTable { names: Vec::new() };
        proof {
            assert(t.model() =~= Seq::<Seq<u8>>::empty());
        }
        t
    }
}

/// Whether the table already holds `name`.
pub open spec fn tbl_contains(t: Seq<Seq<u8>>, name: Seq<u8>) -> bool {
    exists|i: int| 0 <= i < t.len() && t[i] == name
}

/// The first slot holding `name`.
pub open spec fn tbl_index(t: Seq<Seq<u8>>, name: Seq<u8>) -> int
    decreases t.len(),
{
    if t.len() == 0 {
        0
    } else if t[0] == name {
        0
    } else {
        1 + tbl_index(t.drop_first(), name)
    }
}

/// Looking a name up assigns the next slot on first sight and is stable
/// afterwards: the resulting table and the name's slot.
pub open spec fn tbl_get(t: Seq<Seq<u8>>, name: Seq<u8>) -> (Seq<Seq<u8>>, int) {
    if tbl_contains(t, name) {
        (t, tbl_index(t, name))
    } else {
        (t.push(name), t.len() as int)
    }
}

/// If `i` is the first position holding `name`, the lookup index is `i`.
proof fn lemma_tbl_first(t: Seq<Seq<u8>>, name: Seq<u8>, i: int)
    requires
        0 <= i < t.len(),
        t[i] == name,
        forall|j: int| 0 <= j < i ==> t[j] != name,
    ensures
        tbl_contains(t, name),
        tbl_index(t, name) == i,
    decreases i,
{
    if i > 0 {
        lemma_tbl_first(t.drop_first(), name, i - 1);
    }
}

/// Returns the slot of `name`, assigning the next free one at first sight:
/// slots are handed out in first-visit order and never change within one
/// compile.
pub fn get_ident(table: &mut IdentTable, name: &Vec<u8>) -> (slot: usize)
    ensures
        ({
            let (t2, idx) = tbl_get(old(table).model(), name@);
            final(table).model() == t2 && slot as int == idx
        }),
{
    let n = table.names.len();
    let mut i: usize = 0;
    while i < n
        invariant
            0 <= i <= n,
            n == table.names@.len(),
            forall|j: int| 0 <= j < i ==> table.model()[j] != name@,
        decreases n - i,
    {
        if vec_eq(&table.names[i], name) {
            proof {
                lemma_tbl_first(table.model(), name@, i as int);
            }
            return i;
        }
        i = i + 1;
    }
    proof {
        assert(!tbl_contains(table.model(), name@));
    }
    let ghost before = table.model();
    table.names.push(clone_bytes(name));
    proof {
        assert(table.model() =~= before.push(name@));
    }
    n
}

/// Whether two byte vectors hold the same bytes.
fn vec_eq(a: &Vec<u8>, b: &Vec<u8>) -> (r: bool)
    ensures
        r == (a@ == b@),
{
    if a.len() != b.len() {
        return false;
    }
    let mut i: usize = 0;
    while i < a.len()
        invariant
            0 <= i <= a@.len(),
            a@.len() == b@.len(),
            forall|j: int| 0 <= j < i ==> a@[j] == b@[j],
        decreases a@.len() - i,
    {
        if a[i] != b[i] {
            return false;
        }
        i = i + 1;
    }
    proof {
        assert(a@ =~= b@);
    }
    true
}

/// Copies a byte vector.
fn clone_bytes(a: &Vec<u8>) -> (r: Vec<u8>)
    ensures
        r@ == a@,
{
    let mut r: Vec<u8> = Vec::new();
    let mut i: usize = 0;
    while i < a.len()
        invariant
            0 <= i <= a@.len(),
            r@ == a@.subrange(0, i as int),
        decreases a@.len() - i,
    {
        r.push(a[i]);
        proof {
            assert(r@ =~= a@.subrange(0, i + 1));
        }
        i = i + 1;
    }
    proof {
        assert(r@ =~= a@);
    }
    r
}

/// The stack offset of a slot: slot `i` lives `8 * (i + 1)` bytes below the
/// frame base. Assigns a slot like `get_ident`, and reports exhaustion when
/// the slot lies outside the frame.
pub fn get_offset(table: &mut IdentTable, name: &Vec<u8>) -> (r: Result<usize, CompileError>)
    ensures
        ({
            let (t2, idx) = tbl_get(old(table).model(), name@);
            final(table).model() == t2 && match r {
                Ok(off) => 0 <= idx < IDENT_CAPACITY && off as int == 8 * (idx + 1),
                Err(e) => idx >= IDENT_CAPACITY && e == CompileError::ResourceExhausted,
            }
        }),
{
    let slot = get_ident(table, name);
    if slot < IDENT_CAPACITY {
        Ok(8 * (slot + 1))
    } else {
        Err(CompileError::ResourceExhausted)
    }
}

/// The character of a decimal digit.
pub open spec fn dec_digit(d: int) -> char {
    ((48 + d) as u8) as char
}

/// The decimal spelling of a natural number, most significant digit first.
pub open spec fn dec_nat(n: nat) -> Seq<char>
    decreases n,
{
    if n < 10 {
        seq![dec_digit(n as int)]
    } else {
        dec_nat(n / 10).push(dec_digit((n % 10) as int))
    }
}

/// The decimal spelling of a signed number: a minus sign before the
/// magnitude when negative.
pub open spec fn dec_i64(v: int) -> Seq<char> {
    if v >= 0 {
        dec_nat(v as nat)
    } else {
        seq!['-'] + dec_nat((-v) as nat)
    }
}

/// Appends one decimal digit.
fn push_digit(out: &mut String, d: u64)
    requires
        d < 10,
    ensures
        final(out)@ == old(out)@ + seq![dec_digit(d as int)],
{
    proof {
        reveal_strlit("0");
        reveal_strlit("1");
        reveal_strlit("2");
        reveal_strlit("3");
        reveal_strlit("4");
        reveal_strlit("5");
        reveal_strlit("6");
        reveal_strlit("7");
        reveal_strlit("8");
        reveal_strlit("9");
    }
    if d == 0 {
        out.append("0");
    } else if d == 1 {
        out.append("1");
    } else if d == 2 {
        out.append("2");
    } else if d == 3 {
        out.append("3");
    } else if d == 4 {
        out.append("4");
    } else if d == 5 {
        out.append("5");
    } else if d == 6 {
        out.append("6");
    } else if d == 7 {
        out.append("7");
    } else if d == 8 {
        out.append("8");
    } else {
        out.append("9");
    }
    proof {
        assert(final(out)@ =~= old(out)@ + seq![dec_digit(d as int)]);
    }
}

/// Appends the decimal spelling of an unsigned number.
fn push_dec_u64(out: &mut String, n: u64)
    ensures
        final(out)@ == old(out)@ + dec_nat(n as nat),
    decreases n,
{
    if n < 10 {
        push_digit(out, n);
    } else {
        push_dec_u64(out, n / 10);
        push_digit(out, n % 10);
        proof {
            assert(final(out)@ =~= old(out)@ + dec_nat(n as nat));
        }
    }
}

/// Appends the decimal spelling of a `usize`.
fn push_dec_usize(out: &mut String, n: usize)
    ensures
        final(out)@ == old(out)@ + dec_nat(n as nat),
{
    push_dec_u64(out, n as u64);
}

/// Appends the decimal spelling of a signed number.
fn push_dec_i64(out: &mut String, v: i64)
    ensures
        final(out)@ == old(out)@ + dec_i64(v as int),
{
    if v >= 0 {
        push_dec_u64(out, v as u64);
    } else {
        proof {
            reveal_strlit("-");
        }
        out.append("-");
        if v == i64::MIN {
            push_dec_u64(out, 9223372036854775808u64);
        } else {
            push_dec_u64(out, (-v) as u64);
        }
        proof {
            assert(final(out)@ =~= old(out)@ + dec_i64(v as int));
        }
    }
}


/// The text that combines the two popped operands under a non-assignment
/// operator: arithmetic directly, comparisons as a 0/1 result.
pub open spec fn op_text(op: OperatorKind) -> Seq<char> {
    match op {
        OperatorKind::Add => "    add rax, rdi\n"@,
        OperatorKind::Substruct => "    sub rax, rdi\n"@,
        OperatorKind::Multiply => "    imul rax, rdi\n"@,
        OperatorKind::Divide => "    cqo\n    idiv rax, rdi\n"@,
        OperatorKind::Equal => "    cmp rax, rdi\n    sete al\n    movzb rax, al\n"@,
        OperatorKind::NotEqual => "    cmp rax, rdi\n    setne al\n    movzb rax, al\n"@,
        OperatorKind::Less => "    cmp rax, rdi\n    setl al\n    movzb rax, al\n"@,
        OperatorKind::LessEqual => "    cmp rax, rdi\n    setle al\n    movzb rax, al\n"@,
        OperatorKind::Greater => "    cmp rax, rdi\n    setg al\n    movzb rax, al\n"@,
        OperatorKind::GreaterEqual => "    cmp rax, rdi\n    setge al\n    movzb rax, al\n"@,
        OperatorKind::Assign => Seq::empty(),
    }
}

/// The text that leaves the address of slot `idx` in the accumulator.
pub open spec fn ident_addr_text(idx: int) -> Seq<char> {
    "    mov rax, rbp\n    sub rax, "@ + dec_nat((8 * (idx + 1)) as nat) + "\n"@
}

/// The generated text, new table and new label counter for one expression,
/// or nothing when the identifier capacity is exceeded (or, for no tree the
/// parser produces, when an assignment's target is not an identifier).
#[verifier::opaque]
pub open spec fn gen(e: ExprModel, t: Seq<Seq<u8>>, l: nat) -> Option<(Seq<char>, Seq<Seq<u8>>, nat)>
    decreases e, 2int,
{
    match e {
        ExprModel::Num(n) => Some(("    push "@ + dec_i64(n) + "\n"@, t, l)),
        ExprModel::Ident(name) => {
            let (t2, idx) = tbl_get(t, name);
            if idx >= IDENT_CAPACITY {
                None
            } else {
                Some((ident_addr_text(idx) + "    mov rax, [rax]\n    push rax\n"@, t2, l))
            }
        },
        ExprModel::BinaryOperation(op, lhs, rhs) => {
            if op is Assign {
                match *lhs {
                    ExprModel::Ident(name) => {
                        let (t2, idx) = tbl_get(t, name);
                        if idx >= IDENT_CAPACITY {
                            None
                        } else {
                            match gen(*rhs, t2, l) {
                                None => None,
                                Some((ro, t3, l3)) => Some(
                                    (
                                        ident_addr_text(idx) + "    push rax\n"@ + ro
                                            + "    pop rdi\n    pop rax\n    mov [rax], rdi\n    push rdi\n"@,
                                        t3,
                                        l3,
                                    ),
                                ),
                            }
                        }
                    },
                    _ => None,
                }
            } else {
                match gen(*lhs, t, l) {
                    None => None,
                    Some((lo, t1, l1)) => match gen(*rhs, t1, l1) {
                        None => None,
                        Some((ro, t2, l2)) => Some(
                            (
                                lo + ro + "    pop rdi\n    pop rax\n"@ + op_text(op)
                                    + "    push rax\n"@,
                                t2,
                                l2,
                            ),
                        ),
                    },
                }
            }
        },
        ExprModel::Return(inner) => match gen(*inner, t, l) {
            None => None,
            Some((io, t1, l1)) => Some(
                (io + "    pop rax\n    mov rsp, rbp\n    pop rbp\n    ret\n"@, t1, l1),
            ),
        },
        ExprModel::If(_, _, _) => gen_if_parts(e, t, l),
        ExprModel::While(_, _) => gen_while_parts(e, t, l),
        ExprModel::For(_, _, _, _) => gen_for_parts(e, t, l),
        ExprModel::Block(es) => gen_block(es, t, l),
    }
}

/// The generated text of an if statement.
#[verifier::opaque]
pub open spec fn gen_if_parts(whole: ExprModel, t: Seq<Seq<u8>>, l: nat) -> Option<
    (Seq<char>, Seq<Seq<u8>>, nat),
>
    decreases whole, 1int,
{
    match whole {
        ExprModel::If(c, th, el) => match gen(*c, t, l + 1) {
            None => None,
            Some((co, t1, l1)) => match gen(*th, t1, l1) {
                None => None,
                Some((to, t2, l2)) => {
                    let head = co + "    pop rax\n    cmp rax, 0\n    je  .Lelse"@ + dec_nat(l)
                        + "\n"@ + to + "    jmp .Lend"@ + dec_nat(l) + "\n"@ + ".Lelse"@
                        + dec_nat(l) + ":\n"@;
                    match el {
                        None => Some((head + ".Lend"@ + dec_nat(l) + ":\n"@, t2, l2)),
                        Some(e2) => match gen(*e2, t2, l2) {
                            None => None,
                            Some((eo, t3, l3)) => Some(
                                (head + eo + ".Lend"@ + dec_nat(l) + ":\n"@, t3, l3),
                            ),
                        },
                    }
                },
            },
        },
        _ => None,
    }
}

/// The generated text of a while statement.
#[verifier::opaque]
pub open spec fn gen_while_parts(whole: ExprModel, t: Seq<Seq<u8>>, l: nat) -> Option<
    (Seq<char>, Seq<Seq<u8>>, nat),
>
    decreases whole, 1int,
{
    match whole {
        ExprModel::While(c, b) => match gen(*c, t, l + 1) {
            None => None,
            Some((co, t1, l1)) => match gen(*b, t1, l1) {
                None => None,
                Some((bo, t2, l2)) => Some(
                    (
                        ".Lbegin"@ + dec_nat(l) + ":\n"@ + co
                            + "    pop rax\n    cmp rax, 0\n    je .Lend"@ + dec_nat(l) + "\n"@
                            + bo + "    jmp .Lbegin"@ + dec_nat(l) + "\n"@ + ".Lend"@ + dec_nat(l)
                            + ":\n"@,
                        t2,
                        l2,
                    ),
                ),
            },
        },
        _ => None,
    }
}

/// The generated text of an optional expression: empty when absent.
#[verifier::opaque]
pub open spec fn gen_opt(o: Option<Box<ExprModel>>, t: Seq<Seq<u8>>, l: nat) -> Option<
    (Seq<char>, Seq<Seq<u8>>, nat),
>
    decreases o, 0int,
{
    match o {
        None => Some((Seq::<char>::empty(), t, l)),
        Some(x) => gen(*x, t, l),
    }
}

/// The generated text of a for statement's optional guard: the condition
/// followed by the branch out at zero, or nothing when absent.
#[verifier::opaque]
pub open spec fn gen_cond(o: Option<Box<ExprModel>>, lab: nat, t: Seq<Seq<u8>>, l: nat) -> Option<
    (Seq<char>, Seq<Seq<u8>>, nat),
>
    decreases o, 0int,
{
    match o {
        None => Some((Seq::<char>::empty(), t, l)),
        Some(x) => match gen(*x, t, l) {
            None => None,
            Some((co, tc, lc)) => Some(
                (
                    co + "    pop rax\n    cmp rax, 0\n    je  .Lend"@ + dec_nat(lab) + "\n"@,
                    tc,
                    lc,
                ),
            ),
        },
    }
}

/// The generated text of a for statement: initializer, begin label, guarded
/// condition (absent means never branch out), body, step, back jump, end
/// label.
#[verifier::opaque]
pub open spec fn gen_for_parts(whole: ExprModel, t: Seq<Seq<u8>>, l: nat) -> Option<
    (Seq<char>, Seq<Seq<u8>>, nat),
>
    decreases whole, 1int,
{
    match whole {
        ExprModel::For(init, cond, step, b) => match gen_opt(init, t, l + 1) {
            None => None,
            Some((io, t1, l1)) => match gen_cond(cond, l, t1, l1) {
                None => None,
                Some((co, t2, l2)) => match gen(*b, t2, l2) {
                    None => None,
                    Some((bo, t3, l3)) => match gen_opt(step, t3, l3) {
                        None => None,
                        Some((so, t4, l4)) => Some(
                            (
                                io + ".Lbegin"@ + dec_nat(l) + ":\n"@ + co + bo + so
                                    + "jmp .Lbegin"@ + dec_nat(l) + "\n"@ + ".Lend"@ + dec_nat(l)
                                    + ":\n"@,
                                t4,
                                l4,
                            ),
                        ),
                    },
                },
            },
        },
        _ => None,
    }
}

/// The generated text of a statement block: each statement's text followed
/// by a pop that discards its value.
#[verifier::opaque]
pub open spec fn gen_block(es: Seq<ExprModel>, t: Seq<Seq<u8>>, l: nat) -> Option<
    (Seq<char>, Seq<Seq<u8>>, nat),
>
    decreases es, 0int,
{
    if es.len() == 0 {
        Some((Seq::empty(), t, l))
    } else {
        match gen(es[0], t, l) {
            None => None,
            Some((o, t1, l1)) => match gen_block(es.drop_first(), t1, l1) {
                None => None,
                Some((o2, t2, l2)) => Some((o + "    pop rax\n"@ + o2, t2, l2)),
            },
        }
    }
}

/// The label counter never shrinks and grows by at most the tree's node
/// count.
pub proof fn lemma_gen_label_growth(e: ExprModel, t: Seq<Seq<u8>>, l: nat)
    ensures
        match gen(e, t, l) {
            Some((_, _, l2)) => l <= l2 <= l + e.size(),
            None => true,
        },
    decreases e, 2int,
{
    reveal_with_fuel(gen, 2);
    reveal_with_fuel(gen_if_parts, 2);
    reveal_with_fuel(gen_while_parts, 2);
    reveal_with_fuel(gen_for_parts, 2);
    reveal_with_fuel(gen_block, 2);
    match e {
        ExprModel::Num(_) => {},
        ExprModel::Ident(_) => {},
        ExprModel::BinaryOperation(op, lhs, rhs) => {
            if op is Assign {
                match *lhs {
                    ExprModel::Ident(name) => {
                        let (t2, idx) = tbl_get(t, name);
                        lemma_gen_label_growth(*rhs, t2, l);
                    },
                    _ => {},
                }
            } else {
                lemma_gen_label_growth(*lhs, t, l);
                match gen(*lhs, t, l) {
                    Some((_, t1, l1)) => {
                        lemma_gen_label_growth(*rhs, t1, l1);
                    },
                    None => {},
                }
            }
        },
        ExprModel::Return(inner) => {
            lemma_gen_label_growth(*inner, t, l);
        },
        ExprModel::If(c, th, el) => {
            lemma_gen_if_parts_label_growth(c, th, el, e, t, l);
            assert(gen(e, t, l) == gen_if_parts(e, t, l));
        },
        ExprModel::While(c, b) => {
            lemma_gen_while_parts_label_growth(c, b, e, t, l);
            assert(gen(e, t, l) == gen_while_parts(e, t, l));
        },
        ExprModel::For(init, cond, step, b) => {
            lemma_gen_for_parts_label_growth(init, cond, step, b, e, t, l);
            assert(gen(e, t, l) == gen_for_parts(e, t, l));
        },
        ExprModel::Block(es) => {
            lemma_gen_block_label_growth(es, t, l);
        },
    }
}

/// Label growth for the if statement's parts.
pub proof fn lemma_gen_if_parts_label_growth(
    c: Box<ExprModel>,
    th: Box<ExprModel>,
    el: Option<Box<ExprModel>>,
    whole: ExprModel,
    t: Seq<Seq<u8>>,
    l: nat,
)
    requires
        whole == ExprModel::If(c, th, el),
    ensures
        match gen_if_parts(whole, t, l) {
            Some((_, _, l2)) => l <= l2 <= l + whole.size(),
            None => true,
        },
    decreases whole, 1int,
{
    reveal_with_fuel(gen_if_parts, 2);
    reveal_with_fuel(gen, 2);
    assert(decreases_to!(whole => whole->If_0));
    assert(decreases_to!(whole => whole->If_1));
    assert(decreases_to!(whole => whole->If_2));
    lemma_gen_label_growth(*c, t, (l + 1) as nat);
    match gen(*c, t, (l + 1) as nat) {
        Some((_, t1, l1)) => {
            lemma_gen_label_growth(*th, t1, l1);
            match gen(*th, t1, l1) {
                Some((_, t2, l2)) => match el {
                    Some(e2) => {
                        assert(decreases_to!(el => el->0));
                        lemma_gen_label_growth(*e2, t2, l2);
                    },
                    None => {},
                },
                None => {},
            }
        },
        None => {},
    }
}

/// Label growth for the while statement's parts.
pub proof fn lemma_gen_while_parts_label_growth(
    c: Box<ExprModel>,
    b: Box<ExprModel>,
    whole: ExprModel,
    t: Seq<Seq<u8>>,
    l: nat,
)
    requires
        whole == ExprModel::While(c, b),
    ensures
        match gen_while_parts(whole, t, l) {
            Some((_, _, l2)) => l <= l2 <= l + whole.size(),
            None => true,
        },
    decreases whole, 1int,
{
    reveal_with_fuel(gen_while_parts, 2);
    reveal_with_fuel(gen, 2);
    assert(decreases_to!(whole => whole->While_0));
    assert(decreases_to!(whole => whole->While_1));
    lemma_gen_label_growth(*c, t, (l + 1) as nat);
    match gen(*c, t, (l + 1) as nat) {
        Some((_, t1, l1)) => {
            lemma_gen_label_growth(*b, t1, l1);
        },
        None => {},
    }
}

/// Label growth for optional expressions.
pub proof fn lemma_gen_opt_label_growth(o: Option<Box<ExprModel>>, t: Seq<Seq<u8>>, l: nat)
    ensures
        match gen_opt(o, t, l) {
            Some((_, _, l2)) => l <= l2 <= l + match o {
                Some(x) => x.size(),
                None => 0,
            },
            None => true,
        },
    decreases o, 1int,
{
    reveal_with_fuel(gen_opt, 2);
    reveal_with_fuel(gen, 2);
    match o {
        Some(x) => {
            assert(decreases_to!(o => o->0));
            lemma_gen_label_growth(*x, t, l);
        },
        None => {},
    }
}

/// Label growth for the for statement's guard.
pub proof fn lemma_gen_cond_label_growth(o: Option<Box<ExprModel>>, lab: nat, t: Seq<Seq<u8>>, l: nat)
    ensures
        match gen_cond(o, lab, t, l) {
            Some((_, _, l2)) => l <= l2 <= l + match o {
                Some(x) => x.size(),
                None => 0,
            },
            None => true,
        },
    decreases o, 1int,
{
    reveal_with_fuel(gen_cond, 2);
    reveal_with_fuel(gen, 2);
    match o {
        Some(x) => {
            assert(decreases_to!(o => o->0));
            lemma_gen_label_growth(*x, t, l);
        },
        None => {},
    }
}

/// Label growth for the for statement's parts.
pub proof fn lemma_gen_for_parts_label_growth(
    init: Option<Box<ExprModel>>,
    cond: Option<Box<ExprModel>>,
    step: Option<Box<ExprModel>>,
    b: Box<ExprModel>,
    whole: ExprModel,
    t: Seq<Seq<u8>>,
    l: nat,
)
    requires
        whole == ExprModel::For(init, cond, step, b),
    ensures
        match gen_for_parts(whole, t, l) {
            Some((_, _, l2)) => l <= l2 <= l + whole.size(),
            None => true,
        },
    decreases whole, 1int,
{
    reveal_with_fuel(gen_for_parts, 2);
    reveal_with_fuel(gen, 2);
    reveal_with_fuel(gen_opt, 2);
    reveal_with_fuel(gen_cond, 2);
    assert(decreases_to!(whole => whole->For_0));
    assert(decreases_to!(whole => whole->For_1));
    assert(decreases_to!(whole => whole->For_2));
    assert(decreases_to!(whole => whole->For_3));
    lemma_gen_opt_label_growth(init, t, (l + 1) as nat);
    match gen_opt(init, t, (l + 1) as nat) {
        None => {},
        Some((_, t1, l1)) => {
            lemma_gen_cond_label_growth(cond, l, t1, l1);
            match gen_cond(cond, l, t1, l1) {
                None => {},
                Some((_, t2, l2)) => {
                    lemma_gen_label_growth(*b, t2, l2);
                    match gen(*b, t2, l2) {
                        None => {},
                        Some((_, t3, l3)) => {
                            lemma_gen_opt_label_growth(step, t3, l3);
                        },
                    }
                },
            }
        },
    }
}

/// Label growth for statement blocks.
pub proof fn lemma_gen_block_label_growth(es: Seq<ExprModel>, t: Seq<Seq<u8>>, l: nat)
    ensures
        match gen_block(es, t, l) {
            Some((_, _, l2)) => l <= l2 <= l + seq_size(es),
            None => true,
        },
    decreases es, 0int,
{
    reveal_with_fuel(gen_block, 2);
    reveal_with_fuel(gen, 2);
    if es.len() > 0 {
        lemma_gen_label_growth(es[0], t, l);
        match gen(es[0], t, l) {
            None => {},
            Some((_, t1, l1)) => {
                lemma_gen_block_label_growth(es.drop_first(), t1, l1);
            },
        }
    }
}


/// One full unfolding of `gen` at a `for` node, stated over the node's
/// parts.
pub proof fn lemma_gen_for_unfold(m: ExprModel, t: Seq<Seq<u8>>, l: nat)
    requires
        m is For,
    ensures
        gen(m, t, l) == (match gen_opt(m->For_0, t, (l + 1) as nat) {
            None => None,
            Some((io, t1, l1)) => match gen_cond(m->For_1, l, t1, l1) {
                None => None,
                Some((co, t2, l2)) => match gen(*m->For_3, t2, l2) {
                    None => None,
                    Some((bo, t3, l3)) => match gen_opt(m->For_2, t3, l3) {
                        None => None,
                        Some((so, t4, l4)) => Some(
                            (
                                io + ".Lbegin"@ + dec_nat(l) + ":\n"@ + co + bo + so
                                    + "jmp .Lbegin"@ + dec_nat(l) + "\n"@ + ".Lend"@ + dec_nat(l)
                                    + ":\n"@,
                                t4,
                                l4,
                            ),
                        ),
                    },
                },
            },
        }),
{
    reveal_with_fuel(gen, 2);
    reveal_with_fuel(gen_for_parts, 2);
    reveal_with_fuel(gen_opt, 2);
    reveal_with_fuel(gen_cond, 2);
}


/// One unfolding of `gen` at a numeric literal.
pub proof fn lemma_gen_num(n: int, t: Seq<Seq<u8>>, l: nat)
    ensures
        gen(ExprModel::Num(n), t, l) == Some(
            ("    push "@ + dec_i64(n) + "\n"@, t, l),
        ),
{
    reveal_with_fuel(gen, 1);
}

/// One unfolding of `gen` at an identifier.
pub proof fn lemma_gen_ident(name: Seq<u8>, t: Seq<Seq<u8>>, l: nat)
    ensures
        gen(ExprModel::Ident(name), t, l) == ({
            let (t2, idx) = tbl_get(t, name);
            if idx >= IDENT_CAPACITY {
                None
            } else {
                Some((ident_addr_text(idx) + "    mov rax, [rax]\n    push rax\n"@, t2, l))
            }
        }),
{
    reveal_with_fuel(gen, 1);
}

/// One unfolding of `gen` at a binary operation.
pub proof fn lemma_gen_bin(m: ExprModel, t: Seq<Seq<u8>>, l: nat)
    requires
        m is BinaryOperation,
    ensures
        gen(m, t, l) == ({
            let op = m->BinaryOperation_0;
            let lhs = m->BinaryOperation_1;
            let rhs = m->BinaryOperation_2;
            if op is Assign {
                match *lhs {
                    ExprModel::Ident(name) => {
                        let (t2, idx) = tbl_get(t, name);
                        if idx >= IDENT_CAPACITY {
                            None
                        } else {
                            match gen(*rhs, t2, l) {
                                None => None,
                                Some((ro, t3, l3)) => Some(
                                    (
                                        ident_addr_text(idx) + "    push rax\n"@ + ro
                                            + "    pop rdi\n    pop rax\n    mov [rax], rdi\n    push rdi\n"@,
                                        t3,
                                        l3,
                                    ),
                                ),
                            }
                        }
                    },
                    _ => None,
                }
            } else {
                match gen(*lhs, t, l) {
                    None => None,
                    Some((lo, t1, l1)) => match gen(*rhs, t1, l1) {
                        None => None,
                        Some((ro, t2, l2)) => Some(
                            (
                                lo + ro + "    pop rdi\n    pop rax\n"@ + op_text(op)
                                    + "    push rax\n"@,
                                t2,
                                l2,
                            ),
                        ),
                    },
                }
            }
        }),
{
    reveal_with_fuel(gen, 1);
}

/// One unfolding of `gen` at a return statement.
pub proof fn lemma_gen_return(m: ExprModel, t: Seq<Seq<u8>>, l: nat)
    requires
        m is Return,
    ensures
        gen(m, t, l) == (match gen(*m->Return_0, t, l) {
            None => None,
            Some((io, t1, l1)) => Some(
                (io + "    pop rax\n    mov rsp, rbp\n    pop rbp\n    ret\n"@, t1, l1),
            ),
        }),
{
    reveal_with_fuel(gen, 1);
}

/// One full unfolding of `gen` at an `if` node, stated over the node's
/// parts.
pub proof fn lemma_gen_if_unfold(m: ExprModel, t: Seq<Seq<u8>>, l: nat)
    requires
        m is If,
    ensures
        gen(m, t, l) == (match gen(*m->If_0, t, (l + 1) as nat) {
            None => None,
            Some((co, t1, l1)) => match gen(*m->If_1, t1, l1) {
                None => None,
                Some((to, t2, l2)) => {
                    let head = co + "    pop rax\n    cmp rax, 0\n    je  .Lelse"@ + dec_nat(l)
                        + "\n"@ + to + "    jmp .Lend"@ + dec_nat(l) + "\n"@ + ".Lelse"@
                        + dec_nat(l) + ":\n"@;
                    match m->If_2 {
                        None => Some((head + ".Lend"@ + dec_nat(l) + ":\n"@, t2, l2)),
                        Some(e2) => match gen(*e2, t2, l2) {
                            None => None,
                            Some((eo, t3, l3)) => Some(
                                (head + eo + ".Lend"@ + dec_nat(l) + ":\n"@, t3, l3),
                            ),
                        },
                    }
                },
            },
        }),
{
    reveal_with_fuel(gen, 2);
    reveal_with_fuel(gen_if_parts, 2);
}

/// One full unfolding of `gen` at a `while` node, stated over the node's
/// parts.
pub proof fn lemma_gen_while_unfold(m: ExprModel, t: Seq<Seq<u8>>, l: nat)
    requires
        m is While,
    ensures
        gen(m, t, l) == (match gen(*m->While_0, t, (l + 1) as nat) {
            None => None,
            Some((co, t1, l1)) => match gen(*m->While_1, t1, l1) {
                None => None,
                Some((bo, t2, l2)) => Some(
                    (
                        ".Lbegin"@ + dec_nat(l) + ":\n"@ + co
                            + "    pop rax\n    cmp rax, 0\n    je .Lend"@ + dec_nat(l) + "\n"@
                            + bo + "    jmp .Lbegin"@ + dec_nat(l) + "\n"@ + ".Lend"@ + dec_nat(l)
                            + ":\n"@,
                        t2,
                        l2,
                    ),
                ),
            },
        }),
{
    reveal_with_fuel(gen, 2);
    reveal_with_fuel(gen_while_parts, 2);
}

/// One unfolding of `gen` at a statement block: it delegates to
/// `gen_block`.
pub proof fn lemma_gen_block_arm(m: ExprModel, t: Seq<Seq<u8>>, l: nat)
    requires
        m is Block,
    ensures
        gen(m, t, l) == gen_block(m->Block_0, t, l),
{
    reveal_with_fuel(gen, 2);
    reveal_with_fuel(gen_block, 2);
}

/// One unfolding of `gen_block`: nothing for an empty sequence, else the
/// first statement's text, a discarding pop, and the rest.
pub proof fn lemma_gen_block_unfold(es: Seq<ExprModel>, t: Seq<Seq<u8>>, l: nat)
    ensures
        es.len() == 0 ==> gen_block(es, t, l) == Some((Seq::<char>::empty(), t, l)),
        es.len() > 0 ==> gen_block(es, t, l) == (match gen(es[0], t, l) {
            None => None,
            Some((o, t1, l1)) => match gen_block(es.drop_first(), t1, l1) {
                None => None,
                Some((o2, t2, l2)) => Some((o + "    pop rax\n"@ + o2, t2, l2)),
            },
        }),
{
    reveal_with_fuel(gen_block, 2);
    reveal_with_fuel(gen, 2);
}

/// One unfolding of `gen_opt`.
pub proof fn lemma_gen_opt_unfold(o: Option<Box<ExprModel>>, t: Seq<Seq<u8>>, l: nat)
    ensures
        gen_opt(o, t, l) == (match o {
            None => Some((Seq::<char>::empty(), t, l)),
            Some(x) => gen(*x, t, l),
        }),
{
    reveal_with_fuel(gen_opt, 2);
    reveal_with_fuel(gen, 2);
}

/// One unfolding of `gen_cond`.
pub proof fn lemma_gen_cond_unfold(o: Option<Box<ExprModel>>, lab: nat, t: Seq<Seq<u8>>, l: nat)
    ensures
        gen_cond(o, lab, t, l) == (match o {
            None => Some((Seq::<char>::empty(), t, l)),
            Some(x) => match gen(*x, t, l) {
                None => None,
                Some((co, tc, lc)) => Some(
                    (
                        co + "    pop rax\n    cmp rax, 0\n    je  .Lend"@ + dec_nat(lab)
                            + "\n"@,
                        tc,
                        lc,
                    ),
                ),
            },
        }),
{
    reveal_with_fuel(gen_cond, 2);
    reveal_with_fuel(gen, 2);
}

/// The identifier table after one expression's generation: the names in
/// first-visit order, independent of the emitted text and the labels.
pub open spec fn table_after(e: ExprModel, t: Seq<Seq<u8>>) -> Seq<Seq<u8>>
    decreases e, 2int,
{
    match e {
        ExprModel::Num(_) => t,
        ExprModel::Ident(name) => tbl_get(t, name).0,
        ExprModel::BinaryOperation(op, lhs, rhs) => if op is Assign {
            match *lhs {
                ExprModel::Ident(name) => table_after(*rhs, tbl_get(t, name).0),
                _ => t,
            }
        } else {
            table_after(*rhs, table_after(*lhs, t))
        },
        ExprModel::Return(inner) => table_after(*inner, t),
        ExprModel::If(c, th, el) => {
            let t2 = table_after(*th, table_after(*c, t));
            match el {
                Some(e2) => table_after(*e2, t2),
                None => t2,
            }
        },
        ExprModel::While(c, b) => table_after(*b, table_after(*c, t)),
        ExprModel::For(init, cond, step, b) => table_after_opt(
            step,
            table_after(*b, table_after_opt(cond, table_after_opt(init, t))),
        ),
        ExprModel::Block(es) => table_after_seq(es, t),
    }
}

/// The identifier table after an optional expression.
pub open spec fn table_after_opt(o: Option<Box<ExprModel>>, t: Seq<Seq<u8>>) -> Seq<Seq<u8>>
    decreases o, 1int,
{
    match o {
        None => t,
        Some(x) => table_after(*x, t),
    }
}

/// The identifier table after a sequence of statements.
pub open spec fn table_after_seq(es: Seq<ExprModel>, t: Seq<Seq<u8>>) -> Seq<Seq<u8>>
    decreases es, 0int,
{
    if es.len() == 0 {
        t
    } else {
        table_after_seq(es.drop_first(), table_after(es[0], t))
    }
}

/// The table never shrinks while an expression is generated.
pub proof fn lemma_table_after_grows(e: ExprModel, t: Seq<Seq<u8>>)
    ensures
        table_after(e, t).len() >= t.len(),
    decreases e, 2int,
{
    match e {
        ExprModel::Num(_) => {},
        ExprModel::Ident(_) => {},
        ExprModel::BinaryOperation(op, lhs, rhs) => {
            if op is Assign {
                match *lhs {
                    ExprModel::Ident(name) => {
                        lemma_table_after_grows(*rhs, tbl_get(t, name).0);
                    },
                    _ => {},
                }
            } else {
                lemma_table_after_grows(*lhs, t);
                lemma_table_after_grows(*rhs, table_after(*lhs, t));
            }
        },
        ExprModel::Return(inner) => {
            lemma_table_after_grows(*inner, t);
        },
        ExprModel::If(c, th, el) => {
            lemma_table_after_grows(*c, t);
            lemma_table_after_grows(*th, table_after(*c, t));
            let t2 = table_after(*th, table_after(*c, t));
            match el {
                Some(e2) => {
                    lemma_table_after_grows(*e2, t2);
                },
                None => {},
            }
        },
        ExprModel::While(c, b) => {
            lemma_table_after_grows(*c, t);
            lemma_table_after_grows(*b, table_after(*c, t));
        },
        ExprModel::For(init, cond, step, b) => {
            lemma_table_after_opt_grows(init, t);
            let t1 = table_after_opt(init, t);
            lemma_table_after_opt_grows(cond, t1);
            let t2 = table_after_opt(cond, t1);
            lemma_table_after_grows(*b, t2);
            lemma_table_after_opt_grows(step, table_after(*b, t2));
        },
        ExprModel::Block(es) => {
            lemma_table_after_seq_grows(es, t);
        },
    }
}

/// The table never shrinks at an optional expression.
pub proof fn lemma_table_after_opt_grows(o: Option<Box<ExprModel>>, t: Seq<Seq<u8>>)
    ensures
        table_after_opt(o, t).len() >= t.len(),
    decreases o, 1int,
{
    match o {
        Some(x) => {
            lemma_table_after_grows(*x, t);
        },
        None => {},
    }
}

/// The table never shrinks over a sequence of statements.
pub proof fn lemma_table_after_seq_grows(es: Seq<ExprModel>, t: Seq<Seq<u8>>)
    ensures
        table_after_seq(es, t).len() >= t.len(),
    decreases es, 0int,
{
    if es.len() > 0 {
        lemma_table_after_grows(es[0], t);
        lemma_table_after_seq_grows(es.drop_first(), table_after(es[0], t));
    }
}

/// A name the table holds sits at a slot below the table's length.
proof fn lemma_tbl_index_bounds(t: Seq<Seq<u8>>, name: Seq<u8>)
    requires
        tbl_contains(t, name),
    ensures
        0 <= tbl_index(t, name) < t.len(),
    decreases t.len(),
{
    if t.len() > 0 && t[0] != name {
        assert(tbl_contains(t.drop_first(), name)) by {
            let i = choose|i: int| 0 <= i < t.len() && t[i] == name;
            assert(t.drop_first()[i - 1] == name);
        }
        lemma_tbl_index_bounds(t.drop_first(), name);
    }
}

/// Generation succeeds on a well-formed expression whenever the identifiers
/// seen by its end still fit the frame, and the table it leaves is exactly
/// `table_after`: failure is owed only past the capacity.
pub proof fn lemma_gen_succeeds(e: ExprModel, t: Seq<Seq<u8>>, l: nat)
    requires
        e.wf(),
        table_after(e, t).len() <= IDENT_CAPACITY,
    ensures
        gen(e, t, l) is Some,
        (gen(e, t, l)->0).1 == table_after(e, t),
    decreases e, 2int,
{
    match e {
        ExprModel::Num(n) => {
            lemma_gen_num(n, t, l);
        },
        ExprModel::Ident(name) => {
            lemma_gen_ident(name, t, l);
            lemma_tbl_lookup_in_capacity(t, name);
        },
        ExprModel::BinaryOperation(op, lhs, rhs) => {
            lemma_gen_bin(e, t, l);
            if op is Assign {
                match *lhs {
                    ExprModel::Ident(name) => {
                        let t2 = tbl_get(t, name).0;
                        lemma_table_after_grows(*rhs, t2);
                        lemma_tbl_lookup_in_capacity(t, name);
                        lemma_gen_succeeds(*rhs, t2, l);
                    },
                    _ => {},
                }
            } else {
                let t1 = table_after(*lhs, t);
                lemma_table_after_grows(*rhs, t1);
                lemma_gen_succeeds(*lhs, t, l);
                lemma_gen_succeeds(*rhs, t1, (gen(*lhs, t, l)->0).2);
            }
        },
        ExprModel::Return(inner) => {
            lemma_gen_return(e, t, l);
            lemma_gen_succeeds(*inner, t, l);
        },
        ExprModel::If(c, th, el) => {
            lemma_gen_if_unfold(e, t, l);
            let t1 = table_after(*c, t);
            let t2 = table_after(*th, t1);
            lemma_table_after_grows(*th, t1);
            match el {
                Some(e2) => {
                    lemma_table_after_grows(*e2, t2);
                },
                None => {},
            }
            lemma_gen_succeeds(*c, t, (l + 1) as nat);
            lemma_gen_succeeds(*th, t1, (gen(*c, t, (l + 1) as nat)->0).2);
            match el {
                Some(e2) => {
                    lemma_gen_succeeds(
                        *e2,
                        t2,
                        (gen(*th, t1, (gen(*c, t, (l + 1) as nat)->0).2)->0).2,
                    );
                },
                None => {},
            }
        },
        ExprModel::While(c, b) => {
            lemma_gen_while_unfold(e, t, l);
            let t1 = table_after(*c, t);
            lemma_table_after_grows(*b, t1);
            lemma_gen_succeeds(*c, t, (l + 1) as nat);
            lemma_gen_succeeds(*b, t1, (gen(*c, t, (l + 1) as nat)->0).2);
        },
        ExprModel::For(init, cond, step, b) => {
            lemma_gen_for_unfold(e, t, l);
            lemma_gen_opt_unfold(init, t, (l + 1) as nat);
            let t1 = table_after_opt(init, t);
            let t2 = table_after_opt(cond, t1);
            let t3 = table_after(*b, t2);
            lemma_table_after_opt_grows(cond, t1);
            lemma_table_after_grows(*b, t2);
            lemma_table_after_opt_grows(step, t3);
            match init {
                Some(i) => {
                    lemma_gen_succeeds(*i, t, (l + 1) as nat);
                },
                None => {},
            }
            let g1 = gen_opt(init, t, (l + 1) as nat);
            lemma_gen_cond_unfold(cond, l, t1, (g1->0).2);
            match cond {
                Some(c) => {
                    lemma_gen_succeeds(*c, t1, (g1->0).2);
                },
                None => {},
            }
            let g2 = gen_cond(cond, l, t1, (g1->0).2);
            lemma_gen_succeeds(*b, t2, (g2->0).2);
            let g3 = gen(*b, t2, (g2->0).2);
            lemma_gen_opt_unfold(step, t3, (g3->0).2);
            match step {
                Some(s) => {
                    lemma_gen_succeeds(*s, t3, (g3->0).2);
                },
                None => {},
            }
        },
        ExprModel::Block(es) => {
            lemma_gen_block_arm(e, t, l);
            lemma_gen_block_succeeds(es, t, l);
        },
    }
}

/// A lookup stays within the frame while the table (after the lookup) fits
/// the capacity.
proof fn lemma_tbl_lookup_in_capacity(t: Seq<Seq<u8>>, name: Seq<u8>)
    requires
        tbl_get(t, name).0.len() <= IDENT_CAPACITY,
    ensures
        0 <= tbl_get(t, name).1 < IDENT_CAPACITY,
{
    if tbl_contains(t, name) {
        lemma_tbl_index_bounds(t, name);
    }
}

/// Generation succeeds on a sequence of well-formed statements whenever the
/// identifiers seen by its end still fit the frame.
pub proof fn lemma_gen_block_succeeds(es: Seq<ExprModel>, t: Seq<Seq<u8>>, l: nat)
    requires
        seq_wf(es),
        table_after_seq(es, t).len() <= IDENT_CAPACITY,
    ensures
        gen_block(es, t, l) is Some,
        (gen_block(es, t, l)->0).1 == table_after_seq(es, t),
    decreases es, 0int,
{
    lemma_gen_block_unfold(es, t, l);
    if es.len() > 0 {
        let t1 = table_after(es[0], t);
        lemma_table_after_seq_grows(es.drop_first(), t1);
        lemma_gen_succeeds(es[0], t, l);
        lemma_gen_block_succeeds(es.drop_first(), t1, (gen(es[0], t, l)->0).2);
    }
}

/// Success is owed up to the frame's capacity: a well-formed program whose
/// distinct identifiers number at most `IDENT_CAPACITY` compiles.
pub proof fn lemma_compile_succeeds(p: Seq<ExprModel>)
    requires
        crate::ast::prog_wf(p),
        table_after_seq(p, Seq::empty()).len() <= IDENT_CAPACITY,
    ensures
        spec_compile(p) is Some,
{
    lemma_gen_block_succeeds(p, Seq::empty(), 0);
}

/// The text `gen` produces, when it succeeds.
pub open spec fn gen_out(e: ExprModel, t: Seq<Seq<u8>>, l: nat) -> Seq<char> {
    (gen(e, t, l)->0).0
}

/// The table `gen` leaves behind, when it succeeds.
pub open spec fn gen_tbl(e: ExprModel, t: Seq<Seq<u8>>, l: nat) -> Seq<Seq<u8>> {
    (gen(e, t, l)->0).1
}

/// The label counter `gen` leaves behind, when it succeeds.
pub open spec fn gen_lbl(e: ExprModel, t: Seq<Seq<u8>>, l: nat) -> nat {
    (gen(e, t, l)->0).2
}

/// Appends the operator text for a non-assignment operator (nothing for
/// `Assign`, which has no combining text of its own).
fn append_op_text(out: &mut String, op: OperatorKind)
    ensures
        final(out)@ == old(out)@ + op_text(op),
{
    match op {
        OperatorKind::Add => out.append("    add rax, rdi\n"),
        OperatorKind::Substruct => out.append("    sub rax, rdi\n"),
        OperatorKind::Multiply => out.append("    imul rax, rdi\n"),
        OperatorKind::Divide => out.append("    cqo\n    idiv rax, rdi\n"),
        OperatorKind::Equal => out.append("    cmp rax, rdi\n    sete al\n    movzb rax, al\n"),
        OperatorKind::NotEqual => out.append(
            "    cmp rax, rdi\n    setne al\n    movzb rax, al\n",
        ),
        OperatorKind::Less => out.append("    cmp rax, rdi\n    setl al\n    movzb rax, al\n"),
        OperatorKind::LessEqual => out.append(
            "    cmp rax, rdi\n    setle al\n    movzb rax, al\n",
        ),
        OperatorKind::Greater => out.append("    cmp rax, rdi\n    setg al\n    movzb rax, al\n"),
        OperatorKind::GreaterEqual => out.append(
            "    cmp rax, rdi\n    setge al\n    movzb rax, al\n",
        ),
        OperatorKind::Assign => {
            proof {
                assert(final(out)@ =~= old(out)@ + op_text(OperatorKind::Assign));
            }
        },
    }
}

/// Appends the address computation for the slot reached at `off` bytes
/// below the frame base.
fn append_ident_addr(out: &mut String, off: usize, Ghost(idx): Ghost<int>)
    requires
        off as int == 8 * (idx + 1),
        idx >= 0,
    ensures
        final(out)@ == old(out)@ + ident_addr_text(idx),
{
    let ghost out0 = out@;
    out.append("    mov rax, rbp\n    sub rax, ");
    push_dec_usize(out, off);
    out.append("\n");
    proof {
        assert(out@ =~= out0 + ident_addr_text(idx));
    }
}

impl Expr {
    /// Emits the text of one expression onto `out`, threading the identifier
    /// table and the label counter: exactly what `gen` describes.
    fn generate(&self, out: &mut String, tbl: &mut IdentTable, label: &mut usize) -> (r: Result<
        (),
        CompileError,
    >)
        requires
            self.model().wf(),
            *old(label) + self.model().size() <= usize::MAX,
        ensures
            match r {
                Ok(_) => gen(self.model(), old(tbl).model(), *old(label) as nat) is Some
                    && final(out)@ == old(out)@ + gen_out(
                    self.model(),
                    old(tbl).model(),
                    *old(label) as nat,
                ) && final(tbl).model() == gen_tbl(
                    self.model(),
                    old(tbl).model(),
                    *old(label) as nat,
                ) && *final(label) as nat == gen_lbl(
                    self.model(),
                    old(tbl).model(),
                    *old(label) as nat,
                ),
                Err(e) => gen(self.model(), old(tbl).model(), *old(label) as nat) is None && e
                    == CompileError::ResourceExhausted,
            },
        decreases self, 2int,
    {
        let ghost out0 = out@;
        let ghost t0 = tbl.model();
        let ghost l0 = *label as nat;
        proof {
            reveal_with_fuel(Expr::model, 2);
            reveal_with_fuel(ExprModel::wf, 2);
            reveal_with_fuel(ExprModel::size, 2);
        }
        match self {
            Expr::Num(n) => {
                out.append("    push ");
                push_dec_i64(out, *n);
                out.append("\n");
                proof {
                    lemma_gen_num(*n as int, t0, l0);
                    assert(out@ =~= out0 + ("    push "@ + dec_i64(*n as int) + "\n"@));
                }
                Ok(())
            },
            Expr::Ident(name) => {
                proof {
                    lemma_gen_ident(name@, t0, l0);
                }
                match get_offset(tbl, name) {
                    Err(e) => Err(e),
                    Ok(off) => {
                        let ghost idx = tbl_get(t0, name@).1;
                        append_ident_addr(out, off, Ghost(idx));
                        out.append("    mov rax, [rax]\n    push rax\n");
                        proof {
                            assert(out@ =~= out0 + (ident_addr_text(idx)
                                + "    mov rax, [rax]\n    push rax\n"@));
                        }
                        Ok(())
                    },
                }
            },
            Expr::BinaryOperation(_) => gen_bin_exec(self, out, tbl, label),
            Expr::Return(inner) => {
                proof {
                    lemma_gen_return(self.model(), t0, l0);
                }
                match inner.generate(out, tbl, label) {
                    Err(e) => Err(e),
                    Ok(_) => {
                        out.append("    pop rax\n    mov rsp, rbp\n    pop rbp\n    ret\n");
                        proof {
                            let ghost io = gen_out(inner.model(), t0, l0);
                            assert(out@ =~= out0 + (io
                                + "    pop rax\n    mov rsp, rbp\n    pop rbp\n    ret\n"@));
                        }
                        Ok(())
                    },
                }
            },
            Expr::If(_, _, _) => gen_if_exec(self, out, tbl, label),
            Expr::While(_, _) => gen_while_exec(self, out, tbl, label),
            Expr::For(_, _, _, _) => gen_for_exec(self, out, tbl, label),
            Expr::Block(es) => {
                proof {
                    assert(decreases_to!(*self => self->Block_0));
                    assert(self->Block_0 == *es);
                    assert(seq_model(es@).skip(0) =~= seq_model(es@));
                }
                proof {
                    lemma_gen_block_arm(self.model(), t0, l0);
                }
                let r = gen_block_exec(es, 0, out, tbl, label);
                proof {
                    assert(seq_model(es@).skip(0) =~= seq_model(es@));
                }
                r
            },
        }
    }
}



/// Emits one binary operation: the matching case of `gen`.
fn gen_bin_exec(e: &Expr, out: &mut String, tbl: &mut IdentTable, label: &mut usize) -> (r: Result<
    (),
    CompileError,
>)
    requires
        e is BinaryOperation,
        e.model().wf(),
        *old(label) + e.model().size() <= usize::MAX,
    ensures
        match r {
            Ok(_) => gen(e.model(), old(tbl).model(), *old(label) as nat) is Some && final(out)@
                == old(out)@ + gen_out(e.model(), old(tbl).model(), *old(label) as nat)
                && final(tbl).model() == gen_tbl(e.model(), old(tbl).model(), *old(label) as nat)
                && *final(label) as nat == gen_lbl(e.model(), old(tbl).model(), *old(label) as nat),
            Err(err) => gen(e.model(), old(tbl).model(), *old(label) as nat) is None && err
                == CompileError::ResourceExhausted,
        },
    decreases e, 1int,
{
    let ghost out0 = out@;
    let ghost t0 = tbl.model();
    let ghost l0 = *label as nat;
    proof {
        lemma_gen_bin(e.model(), t0, l0);
        reveal_with_fuel(Expr::model, 2);
        reveal_with_fuel(ExprModel::wf, 2);
        reveal_with_fuel(ExprModel::size, 2);
    }
    match e {
        Expr::BinaryOperation(b) => {
                match b.op {
                    OperatorKind::Assign => {
                        match &*b.left {
                            Expr::Ident(name) => {
                                match get_offset(tbl, name) {
                                    Err(e) => Err(e),
                                    Ok(off) => {
                                        let ghost idx = tbl_get(t0, name@).1;
                                        append_ident_addr(out, off, Ghost(idx));
                                        out.append("    push rax\n");
                                        match b.right.generate(out, tbl, label) {
                                            Err(e) => Err(e),
                                            Ok(_) => {
                                                out.append(
                                                    "    pop rdi\n    pop rax\n    mov [rax], rdi\n    push rdi\n",
                                                );
                                                proof {
                                                    let ghost ro = gen_out(
                                                        b.right.model(),
                                                        tbl_get(t0, name@).0,
                                                        l0,
                                                    );
                                                    assert(out@ =~= out0 + (ident_addr_text(idx)
                                                        + "    push rax\n"@ + ro
                                                        + "    pop rdi\n    pop rax\n    mov [rax], rdi\n    push rdi\n"@));
                                                }
                                                Ok(())
                                            },
                                        }
                                    },
                                }
                            },
                            _ => {
                                proof {
                                    assert(false);
                                }
                                Err(CompileError::ResourceExhausted)
                            },
                        }
                    },
                    _ => {
                        match b.left.generate(out, tbl, label) {
                            Err(e) => Err(e),
                            Ok(_) => {
                                proof {
                                    lemma_gen_label_growth(b.left.model(), t0, l0);
                                }
                                match b.right.generate(out, tbl, label) {
                                    Err(e) => Err(e),
                                    Ok(_) => {
                                        out.append("    pop rdi\n    pop rax\n");
                                        append_op_text(out, b.op);
                                        out.append("    push rax\n");
                                        proof {
                                            let ghost lo = gen_out(b.left.model(), t0, l0);
                                            let ghost t1 = gen_tbl(b.left.model(), t0, l0);
                                            let ghost l1 = gen_lbl(b.left.model(), t0, l0);
                                            let ghost ro = gen_out(b.right.model(), t1, l1);
                                            assert(out@ =~= out0 + (lo + ro
                                                + "    pop rdi\n    pop rax\n"@ + op_text(b.op)
                                                + "    push rax\n"@));
                                        }
                                        Ok(())
                                    },
                                }
                            },
                        }
                    },
                }
        },
        _ => {
            proof {
                assert(false);
            }
            Err(CompileError::ResourceExhausted)
        },
    }
}

/// Emits one `if` statement: the matching case of `gen`.
#[verifier::rlimit(100)]
fn gen_if_exec(e: &Expr, out: &mut String, tbl: &mut IdentTable, label: &mut usize) -> (r: Result<
    (),
    CompileError,
>)
    requires
        e is If,
        e.model().wf(),
        *old(label) + e.model().size() <= usize::MAX,
    ensures
        match r {
            Ok(_) => gen(e.model(), old(tbl).model(), *old(label) as nat) is Some && final(out)@
                == old(out)@ + gen_out(e.model(), old(tbl).model(), *old(label) as nat)
                && final(tbl).model() == gen_tbl(e.model(), old(tbl).model(), *old(label) as nat)
                && *final(label) as nat == gen_lbl(e.model(), old(tbl).model(), *old(label) as nat),
            Err(err) => gen(e.model(), old(tbl).model(), *old(label) as nat) is None && err
                == CompileError::ResourceExhausted,
        },
    decreases e, 1int,
{
    let ghost out0 = out@;
    let ghost t0 = tbl.model();
    let ghost l0 = *label as nat;
    proof {
        lemma_gen_if_unfold(e.model(), t0, l0);
    }
    match e {
        Expr::If(c, th, el) => {
                let cur = *label;
                *label = cur + 1;
                match c.generate(out, tbl, label) {
                    Err(err) => Err(err),
                    Ok(_) => {
                        proof {
                            lemma_gen_label_growth(c.model(), t0, (l0 + 1) as nat);
                        }
                        out.append("    pop rax\n    cmp rax, 0\n    je  .Lelse");
                        push_dec_usize(out, cur);
                        out.append("\n");
                        match th.generate(out, tbl, label) {
                            Err(err) => Err(err),
                            Ok(_) => {
                                proof {
                                    lemma_gen_label_growth(
                                        th.model(),
                                        gen_tbl(c.model(), t0, (l0 + 1) as nat),
                                        gen_lbl(c.model(), t0, (l0 + 1) as nat),
                                    );
                                }
                                out.append("    jmp .Lend");
                                push_dec_usize(out, cur);
                                out.append("\n");
                                out.append(".Lelse");
                                push_dec_usize(out, cur);
                                out.append(":\n");
                                let ghost t1 = gen_tbl(c.model(), t0, (l0 + 1) as nat);
                                let ghost l1 = gen_lbl(c.model(), t0, (l0 + 1) as nat);
                                let ghost co = gen_out(c.model(), t0, (l0 + 1) as nat);
                                let ghost to = gen_out(th.model(), t1, l1);
                                let ghost head = co
                                    + "    pop rax\n    cmp rax, 0\n    je  .Lelse"@ + dec_nat(l0)
                                    + "\n"@ + to + "    jmp .Lend"@ + dec_nat(l0) + "\n"@
                                    + ".Lelse"@ + dec_nat(l0) + ":\n"@;
                                match el {
                                    None => {
                                        out.append(".Lend");
                                        push_dec_usize(out, cur);
                                        out.append(":\n");
                                        proof {
                                            assert(gen(e.model(), t0, l0) == Some(
                                                (
                                                    head + ".Lend"@ + dec_nat(l0) + ":\n"@,
                                                    tbl.model(),
                                                    *label as nat,
                                                ),
                                            ));
                                            assert(out@ =~= out0 + (head + ".Lend"@ + dec_nat(l0)
                                                + ":\n"@));
                                        }
                                        Ok(())
                                    },
                                    Some(e2) => {
                                        match e2.generate(out, tbl, label) {
                                            Err(err) => Err(err),
                                            Ok(_) => {
                                                out.append(".Lend");
                                                push_dec_usize(out, cur);
                                                out.append(":\n");
                                                proof {
                                                    let ghost t2 = gen_tbl(th.model(), t1, l1);
                                                    let ghost l2 = gen_lbl(th.model(), t1, l1);
                                                    let ghost eo = gen_out(e2.model(), t2, l2);
                                                    assert(gen(e.model(), t0, l0) == Some(
                                                        (
                                                            head + eo + ".Lend"@ + dec_nat(l0)
                                                                + ":\n"@,
                                                            tbl.model(),
                                                            *label as nat,
                                                        ),
                                                    ));
                                                    assert(out@ =~= out0 + (head + eo + ".Lend"@
                                                        + dec_nat(l0) + ":\n"@));
                                                }
                                                Ok(())
                                            },
                                        }
                                    },
                                }
                            },
                        }
                    },
                }
        },
        _ => {
            proof {
                assert(false);
            }
            Err(CompileError::ResourceExhausted)
        },
    }
}

/// Emits one `while` statement: the matching case of `gen`.
fn gen_while_exec(e: &Expr, out: &mut String, tbl: &mut IdentTable, label: &mut usize) -> (r: Result<
    (),
    CompileError,
>)
    requires
        e is While,
        e.model().wf(),
        *old(label) + e.model().size() <= usize::MAX,
    ensures
        match r {
            Ok(_) => gen(e.model(), old(tbl).model(), *old(label) as nat) is Some && final(out)@
                == old(out)@ + gen_out(e.model(), old(tbl).model(), *old(label) as nat)
                && final(tbl).model() == gen_tbl(e.model(), old(tbl).model(), *old(label) as nat)
                && *final(label) as nat == gen_lbl(e.model(), old(tbl).model(), *old(label) as nat),
            Err(err) => gen(e.model(), old(tbl).model(), *old(label) as nat) is None && err
                == CompileError::ResourceExhausted,
        },
    decreases e, 1int,
{
    let ghost out0 = out@;
    let ghost t0 = tbl.model();
    let ghost l0 = *label as nat;
    proof {
        lemma_gen_while_unfold(e.model(), t0, l0);
    }
    match e {
        Expr::While(c, b) => {
                let cur = *label;
                *label = cur + 1;
                out.append(".Lbegin");
                push_dec_usize(out, cur);
                out.append(":\n");
                match c.generate(out, tbl, label) {
                    Err(err) => Err(err),
                    Ok(_) => {
                        proof {
                            lemma_gen_label_growth(c.model(), t0, (l0 + 1) as nat);
                        }
                        out.append("    pop rax\n    cmp rax, 0\n    je .Lend");
                        push_dec_usize(out, cur);
                        out.append("\n");
                        match b.generate(out, tbl, label) {
                            Err(err) => Err(err),
                            Ok(_) => {
                                out.append("    jmp .Lbegin");
                                push_dec_usize(out, cur);
                                out.append("\n");
                                out.append(".Lend");
                                push_dec_usize(out, cur);
                                out.append(":\n");
                                proof {
                                    let ghost t1 = gen_tbl(c.model(), t0, (l0 + 1) as nat);
                                    let ghost l1 = gen_lbl(c.model(), t0, (l0 + 1) as nat);
                                    let ghost co = gen_out(c.model(), t0, (l0 + 1) as nat);
                                    let ghost bo = gen_out(b.model(), t1, l1);
                                    let ghost wtext = ".Lbegin"@ + dec_nat(l0) + ":\n"@ + co
                                        + "    pop rax\n    cmp rax, 0\n    je .Lend"@
                                        + dec_nat(l0) + "\n"@ + bo + "    jmp .Lbegin"@
                                        + dec_nat(l0) + "\n"@ + ".Lend"@ + dec_nat(l0) + ":\n"@;
                                    assert(gen(e.model(), t0, l0) == Some(
                                        (wtext, tbl.model(), *label as nat),
                                    ));
                                    assert(out@ =~= out0 + wtext);
                                }
                                Ok(())
                            },
                        }
                    },
                }
        },
        _ => {
            proof {
                assert(false);
            }
            Err(CompileError::ResourceExhausted)
        },
    }
}

/// Emits one optional expression: nothing when absent.
fn gen_opt_exec(oe: &Option<Box<Expr>>, out: &mut String, tbl: &mut IdentTable, label: &mut usize) -> (r: Result<
    (),
    CompileError,
>)
    requires
        match oe {
            Some(x) => x.model().wf() && *old(label) + x.model().size() <= usize::MAX,
            None => true,
        },
    ensures
        ({
            let g = gen_opt(opt_model(*oe), old(tbl).model(), *old(label) as nat);
            match r {
                Ok(_) => g is Some && final(out)@ == old(out)@ + (g->0).0 && final(tbl).model()
                    == (g->0).1 && *final(label) as nat == (g->0).2,
                Err(err) => g is None && err == CompileError::ResourceExhausted,
            }
        }),
    decreases oe, 3int,
{
    let ghost t0 = tbl.model();
    let ghost l0 = *label as nat;
    proof {
        lemma_gen_opt_unfold(opt_model(*oe), t0, l0);
    }
    match oe {
        None => Ok(()),
        Some(x) => {
            proof {
                assert(decreases_to!(oe => oe->0));
            }
            x.generate(out, tbl, label)
        },
    }
}

/// Emits the optional guard of a `for` statement: the condition's text and,
/// when present, the branch out at zero.
fn gen_for_cond_exec(
    oe: &Option<Box<Expr>>,
    cur: usize,
    out: &mut String,
    tbl: &mut IdentTable,
    label: &mut usize,
) -> (r: Result<(), CompileError>)
    requires
        match oe {
            Some(x) => x.model().wf() && *old(label) + x.model().size() <= usize::MAX,
            None => true,
        },
    ensures
        ({
            let g = gen_cond(opt_model(*oe), cur as nat, old(tbl).model(), *old(label) as nat);
            match r {
                Ok(_) => g is Some && final(out)@ == old(out)@ + (g->0).0 && final(tbl).model()
                    == (g->0).1 && *final(label) as nat == (g->0).2,
                Err(err) => g is None && err == CompileError::ResourceExhausted,
            }
        }),
    decreases oe, 3int,
{
    let ghost t0 = tbl.model();
    let ghost l0 = *label as nat;
    proof {
        lemma_gen_cond_unfold(opt_model(*oe), cur as nat, t0, l0);
    }
    match oe {
        None => Ok(()),
        Some(x) => {
            proof {
                assert(decreases_to!(oe => oe->0));
            }
            match x.generate(out, tbl, label) {
                Err(e) => Err(e),
                Ok(_) => {
                    let ghost mid = out@;
                    out.append("    pop rax\n    cmp rax, 0\n    je  .Lend");
                    push_dec_usize(out, cur);
                    out.append("\n");
                    proof {
                        assert(out@ =~= mid + ("    pop rax\n    cmp rax, 0\n    je  .Lend"@
                            + dec_nat(cur as nat) + "\n"@));
                    }
                    Ok(())
                },
            }
        },
    }
}

/// Emits one `for` statement: the matching case of `gen`.
#[verifier::rlimit(100)]
fn gen_for_exec(e: &Expr, out: &mut String, tbl: &mut IdentTable, label: &mut usize) -> (r: Result<
    (),
    CompileError,
>)
    requires
        e is For,
        e.model().wf(),
        *old(label) + e.model().size() <= usize::MAX,
    ensures
        match r {
            Ok(_) => gen(e.model(), old(tbl).model(), *old(label) as nat) is Some && final(out)@
                == old(out)@ + gen_out(e.model(), old(tbl).model(), *old(label) as nat)
                && final(tbl).model() == gen_tbl(e.model(), old(tbl).model(), *old(label) as nat)
                && *final(label) as nat == gen_lbl(e.model(), old(tbl).model(), *old(label) as nat),
            Err(err) => gen(e.model(), old(tbl).model(), *old(label) as nat) is None && err
                == CompileError::ResourceExhausted,
        },
    decreases e, 1int,
{
    let ghost out0 = out@;
    let ghost t0 = tbl.model();
    let ghost l0 = *label as nat;
    proof {
        lemma_gen_for_unfold(e.model(), t0, l0);
    }
    match e {
        Expr::For(init, cond, step, b) => {
            proof {
                assert(decreases_to!(*e => e->For_0));
                assert(decreases_to!(*e => e->For_1));
                assert(decreases_to!(*e => e->For_2));
                assert(decreases_to!(*e => e->For_3));
            }
            let cur = *label;
            *label = cur + 1;
            match gen_opt_exec(init, out, tbl, label) {
                Err(err) => Err(err),
                Ok(_) => {
                    let ghost gi = gen_opt(opt_model(*init), t0, (l0 + 1) as nat);
                    proof {
                        lemma_gen_opt_label_growth(opt_model(*init), t0, (l0 + 1) as nat);
                    }
                    out.append(".Lbegin");
                    push_dec_usize(out, cur);
                    out.append(":\n");
                    match gen_for_cond_exec(cond, cur, out, tbl, label) {
                        Err(err) => Err(err),
                        Ok(_) => {
                            let ghost gc = gen_cond(opt_model(*cond), l0, (gi->0).1, (gi->0).2);
                            proof {
                                lemma_gen_cond_label_growth(opt_model(*cond), l0, (gi->0).1, (gi->0).2);
                            }
                            match b.generate(out, tbl, label) {
                                Err(err) => Err(err),
                                Ok(_) => {
                                    let ghost gb = gen(b.model(), (gc->0).1, (gc->0).2);
                                    proof {
                                        lemma_gen_label_growth(b.model(), (gc->0).1, (gc->0).2);
                                    }
                                    match gen_opt_exec(step, out, tbl, label) {
                                        Err(err) => Err(err),
                                        Ok(_) => {
                                            let ghost gs = gen_opt(
                                                opt_model(*step),
                                                (gb->0).1,
                                                (gb->0).2,
                                            );
                                            out.append("jmp .Lbegin");
                                            push_dec_usize(out, cur);
                                            out.append("\n");
                                            out.append(".Lend");
                                            push_dec_usize(out, cur);
                                            out.append(":\n");
                                            let ghost pre = (gi->0).0 + ".Lbegin"@ + dec_nat(l0)
                                                + ":\n"@ + (gc->0).0 + (gb->0).0;
                                            let ghost whole_text = pre + (gs->0).0
                                                + "jmp .Lbegin"@ + dec_nat(l0) + "\n"@ + ".Lend"@
                                                + dec_nat(l0) + ":\n"@;
                                            proof {
                                                assert(out@ =~= out0 + pre + (gs->0).0
                                                    + "jmp .Lbegin"@ + dec_nat(l0) + "\n"@
                                                    + ".Lend"@ + dec_nat(l0) + ":\n"@);
                                            }
                                            proof {
                                                assert(gen(e.model(), t0, l0) == Some(
                                                    (whole_text, (gs->0).1, (gs->0).2),
                                                ));
                                                assert(out@ =~= out0 + whole_text);
                                            }
                                            Ok(())
                                        },
                                    }
                                },
                            }
                        },
                    }
                },
            }
        },
        _ => {
            proof {
                assert(false);
            }
            Err(CompileError::ResourceExhausted)
        },
    }
}

/// Emits the statements of a block from position `i` on, each followed by a
/// discarding pop: exactly what `gen_block` describes for the tail.
fn gen_block_exec(
    es: &Vec<Expr>,
    i: usize,
    out: &mut String,
    tbl: &mut IdentTable,
    label: &mut usize,
) -> (r: Result<(), CompileError>)
    requires
        i <= es@.len(),
        seq_wf(seq_model(es@).skip(i as int)),
        *old(label) + seq_size(seq_model(es@).skip(i as int)) <= usize::MAX,
    ensures
        ({
            let rest = seq_model(es@).skip(i as int);
            match r {
                Ok(_) => {
                    let g = gen_block(rest, old(tbl).model(), *old(label) as nat);
                    g is Some && final(out)@ == old(out)@ + (g->0).0 && final(tbl).model() == (
                    g->0).1 && *final(label) as nat == (g->0).2
                },
                Err(e) => gen_block(rest, old(tbl).model(), *old(label) as nat) is None && e
                    == CompileError::ResourceExhausted,
            }
        }),
    decreases es, es@.len() - i,
{
    let ghost rest = seq_model(es@).skip(i as int);
    let ghost out0 = out@;
    let ghost t0 = tbl.model();
    let ghost l0 = *label as nat;
    proof {
        crate::ast::lemma_seq_model_len(es@);
        lemma_gen_block_unfold(rest, t0, l0);
    }
    if i == es.len() {
        proof {
            assert(rest =~= Seq::<ExprModel>::empty());
        }
        Ok(())
    } else {
        proof {
            crate::ast::lemma_seq_model_index(es@, i as int);
            assert(rest[0] == es@[i as int].model());
            assert(rest.drop_first() =~= seq_model(es@).skip(i + 1));
            assert(decreases_to!(*es => es[i as int]));
        }
        match es[i].generate(out, tbl, label) {
            Err(e) => Err(e),
            Ok(_) => {
                proof {
                    lemma_gen_label_growth(rest[0], t0, l0);
                }
                out.append("    pop rax\n");
                let ghost o = gen_out(rest[0], t0, l0);
                let ghost t1 = gen_tbl(rest[0], t0, l0);
                let ghost l1 = gen_lbl(rest[0], t0, l0);
                match gen_block_exec(es, i + 1, out, tbl, label) {
                    Err(e) => Err(e),
                    Ok(_) => {
                        proof {
                            let o2 = (gen_block(seq_model(es@).skip(i + 1), t1, l1)->0).0;
                            assert(out@ =~= out0 + (o + "    pop rax\n"@ + o2));
                        }
                        Ok(())
                    },
                }
            },
        }
    }
}


/// The complete assembly text of a program: prologue, each statement's text
/// followed by a discarding pop, epilogue — or nothing when the program
/// needs more identifier slots than the frame holds. The output depends on
/// the program alone, so compiling one program twice gives identical text.
pub open spec fn spec_compile(p: Seq<ExprModel>) -> Option<Seq<char>> {
    match gen_block(p, Seq::empty(), 0) {
        None => None,
        Some((o, _, _)) => Some(
            ".intel_syntax noprefix\n.global main\nmain:\n    push rbp\n    mov rbp, rsp\n    sub rsp, 208\n"@
                + o + "    mov rsp, rbp\n    pop rbp\n    ret\n"@,
        ),
    }
}

impl Program {
    /// Compiles the program to assembly text: exactly `spec_compile` of its
    /// model. Fails only when the statements use more distinct identifiers
    /// than the frame has slots. A fresh identifier table and label counter
    /// serve each call, so the result is byte-identical across calls.
    pub fn compile(&self) -> (r: Result<String, CompileError>)
        requires
            crate::ast::prog_wf(self.model()),
            seq_size(self.model()) <= usize::MAX,
        ensures
            match r {
                Ok(text) => spec_compile(self.model()) == Some(text@),
                Err(e) => spec_compile(self.model()) is None && e
                    == CompileError::ResourceExhausted,
            },
    {
        let mut out = String::new();
        out.append(
            ".intel_syntax noprefix\n.global main\nmain:\n    push rbp\n    mov rbp, rsp\n    sub rsp, 208\n",
        );
        let mut tbl = IdentTable::new();
        let mut label: usize = 0;
        proof {
            assert(seq_model(self.stmts@).skip(0) =~= self.model());
        }
        match gen_block_exec(&self.stmts, 0, &mut out, &mut tbl, &mut label) {
            Err(e) => Err(e),
            Ok(_) => {
                let ghost body = (gen_block(self.model(), Seq::empty(), 0)->0).0;
                out.append("    mov rsp, rbp\n    pop rbp\n    ret\n");
                proof {
                    assert(out@ =~= (
                    ".intel_syntax noprefix\n.global main\nmain:\n    push rbp\n    mov rbp, rsp\n    sub rsp, 208\n"@
                        + body + "    mov rsp, rbp\n    pop rbp\n    ret\n"@));
                }
                Ok(out)
            },
        }
    }
}


} // verus!
