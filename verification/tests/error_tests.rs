use lolhtml::CompileError;
use lolhtml::LolCompiler;

fn compile_err(source: &str) -> CompileError {
    let mut c = LolCompiler::new();
    match c.compile(source) {
        Ok(()) => panic!("expected an error for {:?}", source),
        Err(e) => e,
    }
}

#[test]
fn undefined_variable_is_fatal_and_named() {
    let e = compile_err("#HAI #LEMME SEE Y #MKAY #KTHXBYE");
    assert!(matches!(e, CompileError::UndefinedVariable(ref n) if n == "Y"));
    assert_eq!(e.message(), "Syntax Error: Undefined variable 'Y'");
}

#[test]
fn malformed_special_token_is_a_lexical_error() {
    let e = compile_err("#HAI #FOO #KTHXBYE");
    assert!(matches!(e, CompileError::Lexical(ref t) if t == "#FOO"));
    assert_eq!(e.message(), "Lexical Error: Invalid token '#FOO'");
}

#[test]
fn empty_source_is_an_input_error() {
    let e = compile_err("");
    assert!(matches!(e, CompileError::InputError));
    assert_eq!(e.message(), "Syntax Error: Empty input file.");
}

#[test]
fn whitespace_only_source_is_an_input_error() {
    let e = compile_err(" \t\r\n  ");
    assert!(matches!(e, CompileError::InputError));
}

#[test]
fn missing_opening_keyword_is_a_mismatch() {
    let e = compile_err("Hello #KTHXBYE");
    assert!(
        matches!(e, CompileError::Mismatch { ref expected, ref found } if expected == "#HAI" && found == "Hello")
    );
    assert_eq!(e.message(), "Syntax Error: Expected '#HAI', found 'Hello'");
}

#[test]
fn missing_closing_keyword_is_a_mismatch_against_the_empty_token() {
    let e = compile_err("#HAI Hello");
    assert!(
        matches!(e, CompileError::Mismatch { ref expected, ref found } if expected == "#KTHXBYE" && found == "")
    );
}

#[test]
fn unterminated_paragraph_is_a_mismatch() {
    let e = compile_err("#HAI x #MAEK PARAGRAF hi");
    assert!(
        matches!(e, CompileError::Mismatch { ref expected, ref found } if expected == "#OIC" && found == "")
    );
}

#[test]
fn unknown_gimmeh_construct_is_fatal() {
    let e = compile_err("#HAI #GIMMEH BLINK x #MKAY #KTHXBYE");
    assert!(matches!(e, CompileError::UnexpectedConstruct(ref t) if t == "BLINK"));
    assert_eq!(e.message(), "Syntax Error: Unknown GIMMEH construct");
}

#[test]
fn non_ascii_plain_text_is_invalid() {
    let e = compile_err("#HAI h\u{e9}llo #KTHXBYE");
    assert!(matches!(e, CompileError::InvalidText(ref t) if t == "h\u{e9}llo"));
    assert_eq!(e.message(), "Syntax Error: Expected text, found 'h\u{e9}llo'");
}

#[test]
fn variable_definition_needs_its_it_iz_frame() {
    let e = compile_err("#HAI #I HAZ X hi #MKAY #KTHXBYE");
    assert!(
        matches!(e, CompileError::Mismatch { ref expected, ref found } if expected == "#IT" && found == "hi")
    );
}

#[test]
fn failed_pre_emission_compilation_leaves_the_buffer_empty() {
    let mut c = LolCompiler::new();
    assert!(c.compile("#HAI #LEMME SEE Y #MKAY #KTHXBYE").is_err());
    assert_eq!(c.html(), "");
    // and the compiler is still usable afterwards
    assert!(c.compile("#HAI ok #KTHXBYE").is_ok());
    assert_eq!(c.html(), "ok </body></html>");
}

#[test]
fn lexical_and_input_errors_touch_nothing() {
    let mut c = LolCompiler::new();
    assert!(c.compile("#FOO").is_err());
    assert_eq!(c.html(), "");
    assert!(c.compile("   ").is_err());
    assert_eq!(c.html(), "");
}

#[test]
fn error_stops_compilation_before_later_errors() {
    // the undefined use comes first; the malformed paragraph after it is
    // never reached
    let e = compile_err("#HAI #LEMME SEE Z #MKAY #MAEK PARAGRAF #KTHXBYE");
    assert!(matches!(e, CompileError::UndefinedVariable(ref n) if n == "Z"));
}
