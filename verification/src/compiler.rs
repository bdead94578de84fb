//! The native-code compilation backend. The backend itself is left
//! unimplemented: every entry point reports that, after validating
//! which output format was asked for.

use vstd::prelude::*;
use vstd::string::StrSliceExecFns;

verus! {

/// The requested format names the assembly backend, compared without
/// regard to ASCII case.
pub open spec fn emit_is_asm(s: Seq<char>) -> bool {
    &&& s.len() == 3
    &&& (s[0] == 'a' || s[0] == 'A')
    &&& (s[1] == 's' || s[1] == 'S')
    &&& (s[2] == 'm' || s[2] == 'M')
}

/// The requested format names the binary backend, compared without
/// regard to ASCII case.
pub open spec fn emit_is_binary(s: Seq<char>) -> bool {
    &&& s.len() == 6
    &&& (s[0] == 'b' || s[0] == 'B')
    &&& (s[1] == 'i' || s[1] == 'I')
    &&& (s[2] == 'n' || s[2] == 'N')
    &&& (s[3] == 'a' || s[3] == 'A')
    &&& (s[4] == 'r' || s[4] == 'R')
    &&& (s[5] == 'y' || s[5] == 'Y')
}

fn emit_matches_asm(emit: &str) -> (b: bool)
    ensures
        b == emit_is_asm(emit@),
{
    let n = emit.unicode_len();
    if n != 3 {
        return false;
    }
    let c0 = emit.get_char(0);
    let c1 = emit.get_char(1);
    let c2 = emit.get_char(2);
    (c0 == 'a' || c0 == 'A') && (c1 == 's' || c1 == 'S') && (c2 == 'm' || c2 == 'M')
}

fn emit_matches_binary(emit: &str) -> (b: bool)
    ensures
        b == emit_is_binary(emit@),
{
    let n = emit.unicode_len();
    if n != 6 {
        return false;
    }
    let c0 = emit.get_char(0);
    let c1 = emit.get_char(1);
    let c2 = emit.get_char(2);
    let c3 = emit.get_char(3);
    let c4 = emit.get_char(4);
    let c5 = emit.get_char(5);
    (c0 == 'b' || c0 == 'B') && (c1 == 'i' || c1 == 'I') && (c2 == 'n' || c2 == 'N') && (c3 == 'a'
        || c3 == 'A') && (c4 == 'r' || c4 == 'R') && (c5 == 'y' || c5 == 'Y')
}

/// Compile the source to assembly. Not implemented: always an error,
/// naming the variant that was asked for.
pub fn compile_to_asm(source: String, optimize: bool) -> (r: Result<(), &'static str>)
    ensures
        r is Err,
        optimize ==> r->Err_0@ == "Optimized version is not implemented"@,
        !optimize ==> r->Err_0@ == "Non-optimized version is not implemented"@,
{
    if optimize {
        Err("Optimized version is not implemented")
    } else {
        Err("Non-optimized version is not implemented")
    }
}

/// Compile the source to a binary, going through the assembly
/// backend first. Not implemented: always an error, naming the
/// variant that was asked for.
pub fn compile_to_binary(source: String, optimize: bool) -> (r: Result<(), &'static str>)
    ensures
        r is Err,
        optimize ==> r->Err_0@ == "Optimized version is not implemented"@,
        !optimize ==> r->Err_0@ == "Non-optimized version is not implemented"@,
{
    if optimize {
        match compile_to_asm(source, optimize) {
            Ok(_) => Err("Optimized version is not implemented"),
            Err(e) => Err(e),
        }
    } else {
        Err("Non-optimized version is not implemented")
    }
}

/// Dispatch a compilation request on the requested output format,
/// compared without regard to ASCII case; an unknown format is
/// rejected as such.
pub fn compile(source: String, emit: &str, optimize: bool) -> (r: Result<(), &'static str>)
    ensures
        r is Err,
        (emit_is_asm(emit@) || emit_is_binary(emit@)) && optimize ==> r->Err_0@
            == "Optimized version is not implemented"@,
        (emit_is_asm(emit@) || emit_is_binary(emit@)) && !optimize ==> r->Err_0@
            == "Non-optimized version is not implemented"@,
        !(emit_is_asm(emit@) || emit_is_binary(emit@)) ==> r->Err_0@ == "Invalid emit type"@,
{
    if emit_matches_asm(emit) {
        compile_to_asm(source, optimize)
    } else if emit_matches_binary(emit) {
        compile_to_binary(source, optimize)
    } else {
        Err("Invalid emit type")
    }
}

} // verus!
