use expr_x86::{compile_source, write_epilogue, ErrorKind, Instruction};
use expr_x86::assembly::write_listing;
use expr_x86::decimal::{write_decimal, write_displacement, write_signed_decimal};

fn text(bytes: Vec<u8>) -> String {
    String::from_utf8(bytes).unwrap()
}

#[test]
fn compiles_a_literal() {
    assert_eq!(compile_source(b"42").map(text), Ok("movl $42, %eax\n".to_string()));
}

#[test]
fn compiles_a_product() {
    assert_eq!(
        compile_source(b"42 * 32").map(text),
        Ok("movl $42, %eax\npush %eax\nmovl $32, %eax\npop %ecx\nimul %ecx, %eax\n".to_string())
    );
}

#[test]
fn compiles_assignments_and_reads() {
    assert_eq!(
        compile_source(b"a = (b = 2) + a").map(text),
        Ok("movl $2, %eax\n\
            movl %eax, -4(%ebp)\n\
            push %eax\n\
            movl -8(%ebp), %eax\n\
            pop %ecx\n\
            addl %ecx, %eax\n\
            movl %eax, -8(%ebp)\n"
            .to_string())
    );
}

#[test]
fn syntax_error_is_reported() {
    assert_eq!(compile_source(b"42 +"), Err(ErrorKind::SyntaxError));
    assert_eq!(compile_source(b""), Err(ErrorKind::SyntaxError));
    assert_eq!(compile_source(b"4 2"), Err(ErrorKind::SyntaxError));
    assert_eq!(compile_source(b"2147483648"), Err(ErrorKind::SyntaxError));
}

#[test]
fn unknown_variable_is_reported() {
    assert_eq!(compile_source(b"x"), Err(ErrorKind::UnknownVariable));
    assert_eq!(compile_source(b"x = y"), Err(ErrorKind::UnknownVariable));
}

#[test]
fn error_kinds_differ() {
    assert_ne!(ErrorKind::SyntaxError, ErrorKind::UnknownVariable);
    assert_ne!(ErrorKind::VariableAlreadyExists, ErrorKind::UnknownVariable);
    assert_ne!(ErrorKind::VariableAlreadyExists, ErrorKind::SyntaxError);
}

#[test]
fn epilogue_releases_the_frame() {
    let mut output: Vec<u8> = b"movl $1, %eax\n".to_vec();
    write_epilogue(&mut output);
    assert_eq!(text(output), "movl $1, %eax\nmovl %ebp, %esp\npop %ebp\nret\n");
}

#[test]
fn decimal_text() {
    let render = |n: u128| {
        let mut output = Vec::new();
        write_decimal(&mut output, n);
        text(output)
    };
    assert_eq!(render(0), "0");
    assert_eq!(render(9), "9");
    assert_eq!(render(10), "10");
    assert_eq!(render(1905), "1905");
    assert_eq!(render(u128::MAX), "340282366920938463463374607431768211455");
}

#[test]
fn signed_decimal_text() {
    let render = |n: i32| {
        let mut output = Vec::new();
        write_signed_decimal(&mut output, n);
        text(output)
    };
    assert_eq!(render(0), "0");
    assert_eq!(render(-1), "-1");
    assert_eq!(render(120), "120");
    assert_eq!(render(i32::MIN), "-2147483648");
}

#[test]
fn displacement_is_in_bytes() {
    let render = |units: usize| {
        let mut output = Vec::new();
        write_displacement(&mut output, units);
        text(output)
    };
    assert_eq!(render(1), "4");
    assert_eq!(render(3), "12");
    assert_eq!(render(250), "1000");
    assert_eq!(render(usize::MAX), (4 * usize::MAX as u128).to_string());
}

#[test]
fn every_instruction_has_its_line() {
    let lines = [
        (Instruction::LoadImmediate(-3), "movl $-3, %eax\n"),
        (Instruction::LoadVariable(2), "movl -8(%ebp), %eax\n"),
        (Instruction::StoreVariable(1), "movl %eax, -4(%ebp)\n"),
        (Instruction::Push, "push %eax\n"),
        (Instruction::Pop, "pop %ecx\n"),
        (Instruction::Negate, "neg %eax\n"),
        (Instruction::Complement, "not %eax\n"),
        (Instruction::CompareWithZero, "cmpl $0, %eax\n"),
        (Instruction::SetIfZero, "sete %al\n"),
        (Instruction::Add, "addl %ecx, %eax\n"),
        (Instruction::Subtract, "subl %ecx, %eax\n"),
        (Instruction::Multiply, "imul %ecx, %eax\n"),
        (Instruction::Exchange, "xchg %ecx, %eax\n"),
        (Instruction::ClearExtension, "xor %edx, %edx\n"),
        (Instruction::Divide, "idivl %ecx\n"),
    ];
    let mut all = Vec::new();
    let mut expected = String::new();
    for (instruction, line) in lines.iter() {
        let mut output = Vec::new();
        instruction.write(&mut output);
        assert_eq!(text(output), *line);
        all.push(*instruction);
        expected.push_str(line);
    }
    let mut output = Vec::new();
    write_listing(&mut output, &all);
    assert_eq!(text(output), expected);
}

#[test]
fn literal_reads_back_what_decimal_writes() {
    for value in [0, 1, 9, 10, 99, 100, 4096, 1_000_000, i32::MAX] {
        let mut digits = Vec::new();
        write_signed_decimal(&mut digits, value);
        assert_eq!(
            expr_x86::parse_int_literal(&digits),
            Ok((&b""[..], expr_x86::Expression::Constant(value)))
        );
    }
}

#[test]
fn compiles_what_the_term_tests_compile() {
    assert_eq!(
        compile_source(b"42 / 2").map(text),
        Ok("movl $42, %eax\npush %eax\nmovl $2, %eax\npop %ecx\n\
            xchg %ecx, %eax\nxor %edx, %edx\nidivl %ecx\n"
            .to_string())
    );
    assert_eq!(
        compile_source(b"!!42").map(text),
        Ok("movl $42, %eax\n\
            cmpl $0, %eax\nmovl $0, %eax\nsete %al\n\
            cmpl $0, %eax\nmovl $0, %eax\nsete %al\n"
            .to_string())
    );
}
