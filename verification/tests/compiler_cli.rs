use brainf::cli::{CliArgs, Commands, CompileArgs, RunArgs, TestArgs};
use brainf::compiler::{compile, compile_to_asm, compile_to_binary};

#[test]
fn compile_to_asm_is_unimplemented_either_way() {
    assert_eq!(
        compile_to_asm(String::from("+"), true),
        Err("Optimized version is not implemented")
    );
    assert_eq!(
        compile_to_asm(String::from("+"), false),
        Err("Non-optimized version is not implemented")
    );
}

#[test]
fn compile_to_binary_is_unimplemented_either_way() {
    assert_eq!(
        compile_to_binary(String::from("+"), true),
        Err("Optimized version is not implemented")
    );
    assert_eq!(
        compile_to_binary(String::from("+"), false),
        Err("Non-optimized version is not implemented")
    );
}

#[test]
fn compile_matches_the_emit_format_case_insensitively() {
    assert_eq!(
        compile(String::from("+"), "ASM", true),
        Err("Optimized version is not implemented")
    );
    assert_eq!(
        compile(String::from("+"), "Binary", false),
        Err("Non-optimized version is not implemented")
    );
}

#[test]
fn compile_rejects_an_unknown_emit_format() {
    assert_eq!(compile(String::from("+"), "elf", true), Err("Invalid emit type"));
    assert_eq!(compile(String::from("+"), "", false), Err("Invalid emit type"));
}

#[test]
fn cli_arguments_carry_their_fields() {
    let args = CliArgs {
        command: Commands::Compile(CompileArgs {
            path: String::from("square.bf"),
            emit: String::from("binary"),
            no_optimize: false,
            debug: true,
        }),
    };
    match args.command {
        Commands::Compile(c) => {
            assert_eq!(c.path, "square.bf");
            assert_eq!(c.emit, "binary");
            assert!(!c.no_optimize);
            assert!(c.debug);
        }
        _ => panic!("expected a compile command"),
    }
    let run_args = RunArgs { path: String::from("a.bf"), debug: false };
    assert_eq!(run_args.path, "a.bf");
    let test_args = TestArgs { path: String::from("b.bf"), debug: false };
    assert!(!test_args.debug);
}
