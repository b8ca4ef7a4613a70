//! Tests of the code generator, checked by running the emitted text on a
//! small interpreter of the stack-machine instruction set it uses.
use minic::ast::{Expr, Program};
use minic::codegen::{get_ident, get_offset, CompileError, IdentTable};
use std::collections::HashMap;

fn bv(s: &str) -> Vec<u8> {
    s.bytes().collect()
}

fn compile_src(src: &str) -> String {
    let p = Program::parse(&bv(src)).unwrap();
    assert!(p.well_formed());
    p.compile().unwrap()
}

/// Executes the emitted assembly text and returns the final value of the
/// accumulator at `ret`.
fn run_asm(text: &str) -> i64 {
    let lines: Vec<&str> = text
        .lines()
        .map(|l| l.trim())
        .filter(|l| !l.is_empty() && !l.starts_with('.') || l.ends_with(':'))
        .collect();
    let mut labels: HashMap<&str, usize> = HashMap::new();
    for (i, l) in lines.iter().enumerate() {
        if let Some(name) = l.strip_suffix(':') {
            labels.insert(name, i);
        }
    }
    let mut mem: HashMap<i64, i64> = HashMap::new();
    let mut rax: i64 = 0;
    let mut rdi: i64 = 0;
    let mut rbp: i64 = 0;
    let mut rsp: i64 = 1 << 20;
    let mut al: i64 = 0;
    let mut cmp: (i64, i64) = (0, 0);
    let mut pc = labels["main"] + 1;
    let mut steps = 0;
    loop {
        steps += 1;
        assert!(steps < 1_000_000, "interpreter ran too long");
        let line = lines[pc];
        pc += 1;
        if line.ends_with(':') {
            continue;
        }
        let (op, rest) = match line.split_once(' ') {
            Some((a, b)) => (a, b.trim()),
            None => (line, ""),
        };
        match op {
            "push" => {
                let v = match rest {
                    "rax" => rax,
                    "rdi" => rdi,
                    "rbp" => rbp,
                    imm => imm.parse::<i64>().unwrap(),
                };
                rsp -= 8;
                mem.insert(rsp, v);
            }
            "pop" => {
                let v = mem.get(&rsp).copied().unwrap_or(0);
                rsp += 8;
                match rest {
                    "rax" => rax = v,
                    "rdi" => rdi = v,
                    "rbp" => rbp = v,
                    r => panic!("pop {}", r),
                }
            }
            "mov" => match rest {
                "rbp, rsp" => rbp = rsp,
                "rsp, rbp" => rsp = rbp,
                "rax, rbp" => rax = rbp,
                "rax, [rax]" => rax = mem.get(&rax).copied().unwrap_or(0),
                "[rax], rdi" => {
                    mem.insert(rax, rdi);
                }
                r => panic!("mov {}", r),
            },
            "movzb" => {
                assert_eq!(rest, "rax, al");
                rax = al;
            }
            "sub" => {
                if rest == "rax, rdi" {
                    rax -= rdi;
                } else {
                    let (dst, amt) = rest.split_once(", ").unwrap();
                    let amt: i64 = amt.parse().unwrap();
                    match dst {
                        "rsp" => rsp -= amt,
                        "rax" => rax -= amt,
                        r => panic!("sub {}", r),
                    }
                }
            }
            "add" => {
                assert_eq!(rest, "rax, rdi");
                rax += rdi;
            }
            "imul" => {
                assert_eq!(rest, "rax, rdi");
                rax *= rdi;
            }
            "cqo" => {}
            "idiv" => {
                assert_eq!(rest, "rax, rdi");
                rax /= rdi;
            }
            "cmp" => {
                let (_, snd) = rest.split_once(", ").unwrap();
                let rhs = match snd {
                    "rdi" => rdi,
                    imm => imm.parse::<i64>().unwrap(),
                };
                cmp = (rax, rhs);
            }
            "sete" => al = (cmp.0 == cmp.1) as i64,
            "setne" => al = (cmp.0 != cmp.1) as i64,
            "setl" => al = (cmp.0 < cmp.1) as i64,
            "setle" => al = (cmp.0 <= cmp.1) as i64,
            "setg" => al = (cmp.0 > cmp.1) as i64,
            "setge" => al = (cmp.0 >= cmp.1) as i64,
            "je" => {
                if cmp.0 == 0 {
                    pc = labels[rest];
                }
            }
            "jmp" => pc = labels[rest],
            "ret" => return rax,
            other => panic!("unknown instruction {} {}", other, rest),
        }
    }
}

fn eval_src(src: &str) -> i64 {
    run_asm(&compile_src(src))
}

#[test]
fn left_associative_chain_evaluates_left_to_right() {
    assert_eq!(eval_src("9-5-1;"), 3);
    assert_eq!(eval_src("100/5/2;"), 10);
}

#[test]
fn precedence() {
    assert_eq!(eval_src("1+2*3;"), 7);
    assert_eq!(eval_src("(1+2)*3;"), 9);
}

#[test]
fn assignment_chain_and_identifier_slots() {
    assert_eq!(eval_src("a=3; a=a+2; a;"), 5);
    let mut t = IdentTable::new();
    assert_eq!(get_ident(&mut t, &bv("a")), 0);
    assert_eq!(get_ident(&mut t, &bv("b")), 1);
    assert_eq!(get_ident(&mut t, &bv("a")), 0);
    let mut t = IdentTable::new();
    assert_eq!(get_offset(&mut t, &bv("a")), Ok(8));
    assert_eq!(get_offset(&mut t, &bv("b")), Ok(16));
    assert_eq!(get_offset(&mut t, &bv("a")), Ok(8));
    let text = compile_src("a=3; a=a+2; a;");
    assert!(text.contains("sub rax, 8"));
}

#[test]
fn control_flow() {
    assert_eq!(eval_src("if (0) 1; else 2;"), 2);
    assert_eq!(eval_src("if (1) 1; else 2;"), 1);
    assert_eq!(eval_src("a=0; while (a<3) a=a+1; a;"), 3);
    assert_eq!(eval_src("a=0; for (i=0; i<3; i=i+1) a=a+2; a;"), 6);
}

#[test]
fn compiling_twice_is_byte_identical() {
    let p = Program::parse(&bv("a=1; if (a) a=a+1; else a=0; a;")).unwrap();
    let first = p.compile().unwrap();
    let second = p.compile().unwrap();
    assert_eq!(first, second);
}

#[test]
fn empty_program_compiles_to_bare_frame() {
    let text = compile_src("");
    assert_eq!(
        text,
        ".intel_syntax noprefix\n.global main\nmain:\n    push rbp\n    mov rbp, rsp\n    sub rsp, 208\n    mov rsp, rbp\n    pop rbp\n    ret\n"
    );
}

#[test]
fn return_exits_the_function() {
    assert_eq!(eval_src("return 5; 9;"), 5);
    assert_eq!(eval_src("return 1+2*3;"), 7);
}

#[test]
fn comparisons_yield_zero_or_one() {
    assert_eq!(eval_src("1<2;"), 1);
    assert_eq!(eval_src("2<=1;"), 0);
    assert_eq!(eval_src("2>1;"), 1);
    assert_eq!(eval_src("1>=2;"), 0);
    assert_eq!(eval_src("3==3;"), 1);
    assert_eq!(eval_src("3!=3;"), 0);
}

#[test]
fn unary_minus_subtracts_from_zero() {
    assert_eq!(eval_src("-5+6;"), 1);
    assert_eq!(eval_src("7/2;"), 3);
}

#[test]
fn too_many_identifiers_is_resource_exhaustion() {
    let mut src = String::new();
    for i in 0..27 {
        src.push_str(&format!("v{}=1;", i));
    }
    let p = Program::parse(&bv(&src)).unwrap();
    assert_eq!(p.compile(), Err(CompileError::ResourceExhausted));
    let mut ok = String::new();
    for i in 0..26 {
        ok.push_str(&format!("v{}=1;", i));
    }
    let p = Program::parse(&bv(&ok)).unwrap();
    assert!(p.compile().is_ok());
}

#[test]
fn labels_are_unique_per_construct() {
    let text = compile_src("if (1) 1; else 2; if (1) 3; else 4; while (0) 1;");
    assert!(text.contains(".Lelse0:"));
    assert!(text.contains(".Lelse1:"));
    assert!(text.contains(".Lbegin2:"));
    assert!(text.contains(".Lend2:"));
}

#[test]
fn block_emits_each_statement_with_a_discarding_pop() {
    let p = Program {
        stmts: vec![Expr::Block(vec![Expr::Num(1), Expr::Num(2)])],
    };
    assert!(p.well_formed());
    let text = p.compile().unwrap();
    assert!(text.contains(
        "    push 1\n    pop rax\n    push 2\n    pop rax\n    pop rax\n"
    ));
}
