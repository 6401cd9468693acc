use lolhtml::CompileError;
use lolhtml::LolLexer;

fn tokenize_ok(source: &str) -> Vec<String> {
    let mut l = LolLexer::new();
    match l.tokenize(source) {
        Ok(ts) => ts,
        Err(e) => panic!("expected tokens, got {:?}", e),
    }
}

#[test]
fn splits_on_all_whitespace_kinds() {
    let ts = tokenize_ok("#HAI  a\tb\r\nc #KTHXBYE");
    assert_eq!(ts, vec!["#HAI", "a", "b", "c", "#KTHXBYE"]);
}

#[test]
fn empty_source_gives_no_tokens() {
    assert_eq!(tokenize_ok(""), Vec::<String>::new());
    assert_eq!(tokenize_ok("  \t\n"), Vec::<String>::new());
}

#[test]
fn hash_opens_a_token_even_mid_word() {
    let ts = tokenize_ok("ab#HAI");
    assert_eq!(ts, vec!["ab", "#HAI"]);
}

#[test]
fn special_token_greedily_takes_url_safe_characters() {
    let ts = tokenize_ok("#MKAY, next");
    assert_eq!(ts, vec!["#MKAY", ",", "next"]);
}

#[test]
fn keywords_are_recognized_in_any_case() {
    let ts = tokenize_ok("#hAi #kthxbye");
    assert_eq!(ts, vec!["#hAi", "#kthxbye"]);
}

#[test]
fn plain_urls_pass_through_as_text_tokens() {
    let ts = tokenize_ok("#GIMMEH SOUNDZ https://example.com/x.mp3?a=1&b=2 #MKAY");
    assert_eq!(
        ts,
        vec!["#GIMMEH", "SOUNDZ", "https://example.com/x.mp3?a=1&b=2", "#MKAY"]
    );
}

#[test]
fn invalid_special_token_is_named_in_the_error() {
    let mut l = LolLexer::new();
    let r = l.tokenize("x #NOPE y");
    assert!(matches!(r, Err(CompileError::Lexical(ref t)) if t == "#NOPE"));
}

#[test]
fn lone_hash_is_invalid() {
    let mut l = LolLexer::new();
    let r = l.tokenize("a # b");
    assert!(matches!(r, Err(CompileError::Lexical(ref t)) if t == "#"));
}

#[test]
fn lookup_accepts_every_keyword_case_insensitively() {
    let l = LolLexer::new();
    for kw in [
        "#HAI", "#KTHXBYE", "#OBTW", "#TLDR", "#MAEK", "#OIC", "#GIMMEH", "#MKAY", "#LEMME",
        "#I", "HAZ", "#IT", "IZ", "HEAD", "TITLE", "BOLD", "ITALICS", "NEWLINE", "SOUNDZ",
        "VIDZ", "PARAGRAF", "LIST", "ITEM", "SEE",
    ] {
        assert!(l.lookup(kw), "{kw}");
        assert!(l.lookup(&kw.to_lowercase()), "{kw}");
    }
    assert!(!l.lookup("#NOPE"));
    assert!(!l.lookup("HAI"));
}

#[test]
fn retokenizing_the_rendered_tokens_is_stable() {
    let ts = tokenize_ok("#HAI  Hello   world , #GIMMEH BOLD x #MKAY #KTHXBYE");
    let rendered = ts.join(" ");
    let again = tokenize_ok(&rendered);
    assert_eq!(again, ts);
    let rendered_again = again.join(" ");
    assert_eq!(rendered_again, rendered);
}

#[test]
fn a_reused_lexer_carries_nothing_over() {
    let mut l = LolLexer::new();
    assert_eq!(l.tokenize("abc").unwrap(), vec!["abc"]);
    // a second run sees the new source alone, whatever the first left behind
    assert_eq!(l.tokenize("xyz").unwrap(), vec!["xyz"]);
    assert!(l.tokenize("#BAD").is_err());
    assert_eq!(l.tokenize("ok").unwrap(), vec!["ok"]);
}

#[test]
fn cursor_reads_the_lexed_stream_in_order() {
    let mut c = lolhtml::LolCompiler::new();
    assert!(c.compile("#HAI one two #KTHXBYE").is_ok());
    // after a successful run the cursor has consumed the program
    assert_eq!(c.current_token(), "");
}
