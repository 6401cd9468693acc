//! Mathematical model of the compiler: a specification-level lexer and one
//! specification function per grammar production. The executable code in
//! `lexer` and `compiler` is proved to agree with these functions exactly.
use vstd::prelude::*;
use vstd::utf8::is_ascii_chars;

verus! {

// ---------------------------------------------------------------------------
// Characters
// ---------------------------------------------------------------------------

/// The lexer's whitespace set: space, tab, carriage return, line feed.
pub open spec fn is_ws_char(c: char) -> bool {
    c == ' ' || c == '\t' || c == '\n' || c == '\r'
}

/// Characters that may follow `#` inside one special token: alphanumerics
/// plus the URL-safe punctuation set.
pub open spec fn is_url_char(c: char) -> bool {
    ||| '0' <= c && c <= '9'
    ||| 'a' <= c && c <= 'z'
    ||| 'A' <= c && c <= 'Z'
    ||| c == ':'
    ||| c == '/'
    ||| c == '.'
    ||| c == '?'
    ||| c == '='
    ||| c == '&'
    ||| c == '-'
    ||| c == '%'
}

/// Equality of two characters up to ASCII case.
pub open spec fn char_eq_ci(a: char, b: char) -> bool {
    ||| a == b
    ||| ('A' <= a && a <= 'Z' && b as u32 == a as u32 + 32)
    ||| ('a' <= a && a <= 'z' && b as u32 + 32 == a as u32)
}

/// Equality of two token texts up to ASCII case.
pub open spec fn tok_eq_ci(a: Seq<char>, b: Seq<char>) -> bool {
    a.len() == b.len() && forall|i: int| 0 <= i < a.len() ==> #[trigger] char_eq_ci(a[i], b[i])
}

// ---------------------------------------------------------------------------
// Keywords
// ---------------------------------------------------------------------------

/// The fixed keyword table, matched case-insensitively.
pub open spec fn is_keyword(t: Seq<char>) -> bool {
    ||| tok_eq_ci(t, "#HAI"@)
    ||| tok_eq_ci(t, "#KTHXBYE"@)
    ||| tok_eq_ci(t, "#OBTW"@)
    ||| tok_eq_ci(t, "#TLDR"@)
    ||| tok_eq_ci(t, "#MAEK"@)
    ||| tok_eq_ci(t, "#OIC"@)
    ||| tok_eq_ci(t, "#GIMMEH"@)
    ||| tok_eq_ci(t, "#MKAY"@)
    ||| tok_eq_ci(t, "#LEMME"@)
    ||| tok_eq_ci(t, "#I"@)
    ||| tok_eq_ci(t, "HAZ"@)
    ||| tok_eq_ci(t, "#IT"@)
    ||| tok_eq_ci(t, "IZ"@)
    ||| tok_eq_ci(t, "HEAD"@)
    ||| tok_eq_ci(t, "TITLE"@)
    ||| tok_eq_ci(t, "BOLD"@)
    ||| tok_eq_ci(t, "ITALICS"@)
    ||| tok_eq_ci(t, "NEWLINE"@)
    ||| tok_eq_ci(t, "SOUNDZ"@)
    ||| tok_eq_ci(t, "VIDZ"@)
    ||| tok_eq_ci(t, "PARAGRAF"@)
    ||| tok_eq_ci(t, "LIST"@)
    ||| tok_eq_ci(t, "ITEM"@)
    ||| tok_eq_ci(t, "SEE"@)
}

/// The URL passthrough exemption: the token literally begins with `http`
/// (case-sensitively, as a prefix of the whole token).
pub open spec fn starts_with_http(t: Seq<char>) -> bool {
    t.len() >= 4 && t[0] == 'h' && t[1] == 't' && t[2] == 't' && t[3] == 'p'
}

/// A special token is valid when it is a keyword or begins with `http`.
pub open spec fn valid_special(t: Seq<char>) -> bool {
    is_keyword(t) || starts_with_http(t)
}

// ---------------------------------------------------------------------------
// Errors
// ---------------------------------------------------------------------------

/// The abstract error taxonomy. Every failure of a compilation is exactly one
/// of these, and compilation stops at the first one.
pub ghost enum ErrSpec {
    /// An unrecognized `#`-prefixed token that is neither a keyword nor a URL.
    Lexical(Seq<char>),
    /// `match_token` expected one literal and found another.
    Mismatch { expected: Seq<char>, found: Seq<char> },
    /// An unrecognized construct after `#GIMMEH`.
    UnexpectedConstruct(Seq<char>),
    /// A plain-text production met a `#`-initial or non-ASCII token.
    InvalidText(Seq<char>),
    /// A variable was used before any definition of its name.
    UndefinedVariable(Seq<char>),
    /// The token stream was empty.
    EmptyInput,
}

// ---------------------------------------------------------------------------
// Lexing
// ---------------------------------------------------------------------------

/// End of the run of URL-safe characters that starts at index `i`.
pub open spec fn scan_end(chars: Seq<char>, i: int) -> int
    decreases chars.len() - i
        when 0 <= i <= chars.len()
{
    if i < chars.len() && is_url_char(chars[i]) {
        scan_end(chars, i + 1)
    } else {
        i
    }
}

/// Append the pending lexeme to the token list, if it is non-empty.
pub open spec fn flush(acc: Seq<Seq<char>>, pending: Seq<char>) -> Seq<Seq<char>> {
    if pending.len() > 0 {
        acc.push(pending)
    } else {
        acc
    }
}

/// One left-to-right pass over the source, from index `i`, with the pending
/// plain lexeme `pending` and the tokens already produced `acc`.
pub open spec fn lex(chars: Seq<char>, i: int, pending: Seq<char>, acc: Seq<Seq<char>>) -> Result<
    Seq<Seq<char>>,
    ErrSpec,
>
    decreases chars.len() - i
        when 0 <= i <= chars.len()
{
    if i >= chars.len() {
        Ok(flush(acc, pending))
    } else {
        let c = chars[i];
        if is_ws_char(c) {
            lex(chars, i + 1, Seq::empty(), flush(acc, pending))
        } else if c == '#' {
            let j = scan_end(chars, i + 1);
            if i < j && j <= chars.len() {
                let tok = chars.subrange(i, j);
                if valid_special(tok) {
                    lex(chars, j, Seq::empty(), flush(acc, pending).push(tok))
                } else {
                    Err(ErrSpec::Lexical(tok))
                }
            } else {
                // dead branch: scan_end stays within (i, chars.len()]
                Err(ErrSpec::Lexical(Seq::empty()))
            }
        } else {
            lex(chars, i + 1, pending.push(c), acc)
        }
    }
}

/// The token sequence of a whole source text, or its first lexical error.
pub open spec fn spec_tokenize(source: Seq<char>) -> Result<Seq<Seq<char>>, ErrSpec> {
    lex(source, 0, Seq::empty(), Seq::empty())
}

/// The texts of a sequence of owned strings.
pub open spec fn views_of(toks: Seq<String>) -> Seq<Seq<char>> {
    Seq::new(toks.len(), |i: int| toks[i]@)
}

// ---------------------------------------------------------------------------
// Parser state
// ---------------------------------------------------------------------------

/// The state a production works on: the cursor position, the symbol table and
/// the HTML buffer. The token sequence itself never changes during parsing and
/// is passed separately.
#[verifier::ext_equal]
pub ghost struct PState {
    pub pos: int,
    pub vars: Map<Seq<char>, Seq<char>>,
    pub html: Seq<char>,
}

/// The current token: the empty sequence once the stream is exhausted.
pub open spec fn cur_tok(tokens: Seq<Seq<char>>, pos: int) -> Seq<char> {
    if 0 <= pos < tokens.len() {
        tokens[pos]
    } else {
        Seq::empty()
    }
}

/// Advancing stops at the end of the stream.
pub open spec fn next_pos(tokens: Seq<Seq<char>>, pos: int) -> int {
    if pos < tokens.len() {
        pos + 1
    } else {
        pos
    }
}

/// Result of one production: the new state, or the error that stopped it.
pub type PRes = Result<PState, ErrSpec>;

// ---------------------------------------------------------------------------
// Token joining and the symbol table
// ---------------------------------------------------------------------------

/// Tokens joined with a single space between neighbours and none at the ends:
/// the trimmed form of collected text.
pub open spec fn join_spaced(toks: Seq<Seq<char>>) -> Seq<char>
    decreases toks.len(),
{
    if toks.len() == 0 {
        Seq::empty()
    } else if toks.len() == 1 {
        toks[0]
    } else {
        toks[0] + " "@ + join_spaced(toks.drop_first())
    }
}

/// Tokens each followed by one space: the form emitted inside bold/italics.
pub open spec fn join_trailing(toks: Seq<Seq<char>>) -> Seq<char>
    decreases toks.len(),
{
    if toks.len() == 0 {
        Seq::empty()
    } else {
        toks[0] + " "@ + join_trailing(toks.drop_first())
    }
}

/// Index of the first token at or after `from` that equals `kw` up to case,
/// or the length of the stream if there is none.
pub open spec fn first_match(tokens: Seq<Seq<char>>, from: int, kw: Seq<char>) -> int
    decreases tokens.len() - from
        when 0 <= from <= tokens.len()
{
    if from >= tokens.len() {
        from
    } else if tok_eq_ci(tokens[from], kw) {
        from
    } else {
        first_match(tokens, from + 1, kw)
    }
}

/// The symbol table that a sequence of (name, value) bindings denotes:
/// later bindings overwrite earlier ones.
pub open spec fn vars_map(pairs: Seq<(Seq<char>, Seq<char>)>) -> Map<Seq<char>, Seq<char>>
    decreases pairs.len(),
{
    if pairs.len() == 0 {
        Map::empty()
    } else {
        vars_map(pairs.drop_last()).insert(pairs.last().0, pairs.last().1)
    }
}

// ---------------------------------------------------------------------------
// Productions
// ---------------------------------------------------------------------------

/// The match-and-advance primitive: the current token must equal `kw` up to
/// case; otherwise the mismatch is fatal.
pub open spec fn spec_match(tokens: Seq<Seq<char>>, st: PState, kw: Seq<char>) -> PRes {
    if tok_eq_ci(cur_tok(tokens, st.pos), kw) {
        Ok(PState { pos: next_pos(tokens, st.pos), ..st })
    } else {
        Err(ErrSpec::Mismatch { expected: kw, found: cur_tok(tokens, st.pos) })
    }
}

/// `Title := "#GIMMEH" "TITLE" {TEXT} "#MKAY"`; emits the document prefix
/// with the joined title text.
pub open spec fn spec_title(tokens: Seq<Seq<char>>, st: PState) -> PRes {
    match spec_match(tokens, st, "#GIMMEH"@) {
        Err(e) => Err(e),
        Ok(st1) => match spec_match(tokens, st1, "TITLE"@) {
            Err(e) => Err(e),
            Ok(st2) => {
                let j = first_match(tokens, st2.pos, "#MKAY"@);
                if j < tokens.len() {
                    Ok(
                        PState {
                            pos: j + 1,
                            vars: st2.vars,
                            html: st2.html + "<html><head><title>"@ + join_spaced(
                                tokens.subrange(st2.pos, j),
                            ) + "</title></head><body>\n"@,
                        },
                    )
                } else {
                    Err(ErrSpec::Mismatch { expected: "#MKAY"@, found: Seq::empty() })
                }
            },
        },
    }
}

/// `Comment := "#OBTW" {ANY} "#TLDR"`; consumes and emits nothing.
pub open spec fn spec_comment(tokens: Seq<Seq<char>>, st: PState) -> PRes {
    match spec_match(tokens, st, "#OBTW"@) {
        Err(e) => Err(e),
        Ok(st1) => {
            let j = first_match(tokens, st1.pos, "#TLDR"@);
            if j < tokens.len() {
                Ok(PState { pos: j + 1, ..st1 })
            } else {
                Err(ErrSpec::Mismatch { expected: "#TLDR"@, found: Seq::empty() })
            }
        },
    }
}

/// Zero or more comments.
pub open spec fn spec_comments(tokens: Seq<Seq<char>>, st: PState) -> PRes
    decreases tokens.len() - st.pos
        when 0 <= st.pos <= tokens.len()
{
    if !tok_eq_ci(cur_tok(tokens, st.pos), "#OBTW"@) {
        Ok(st)
    } else {
        match spec_comment(tokens, st) {
            Err(e) => Err(e),
            Ok(st1) => if st.pos < st1.pos && st1.pos <= tokens.len() {
                spec_comments(tokens, st1)
            } else {
                // dead branch: a comment always advances the cursor
                Ok(st1)
            },
        }
    }
}

/// The permissive scan inside `Head`: up to `#OIC` (or the end of the
/// stream), parse a title at each `#GIMMEH` and skip anything else.
pub open spec fn spec_head_scan(tokens: Seq<Seq<char>>, st: PState) -> PRes
    decreases tokens.len() - st.pos
        when 0 <= st.pos <= tokens.len()
{
    let cur = cur_tok(tokens, st.pos);
    if cur.len() == 0 || tok_eq_ci(cur, "#OIC"@) {
        Ok(st)
    } else if tok_eq_ci(cur, "#GIMMEH"@) {
        match spec_title(tokens, st) {
            Err(e) => Err(e),
            Ok(st1) => if st.pos < st1.pos && st1.pos <= tokens.len() {
                spec_head_scan(tokens, st1)
            } else {
                // dead branch: a title always advances the cursor
                Ok(st1)
            },
        }
    } else {
        spec_head_scan(tokens, PState { pos: st.pos + 1, ..st })
    }
}

/// `Head := [ "#MAEK" "HEAD" {HeadItem} "#OIC" ]`, optional.
pub open spec fn spec_head(tokens: Seq<Seq<char>>, st: PState) -> PRes {
    if tok_eq_ci(cur_tok(tokens, st.pos), "#MAEK"@) {
        match spec_match(tokens, st, "#MAEK"@) {
            Err(e) => Err(e),
            Ok(st1) => match spec_match(tokens, st1, "HEAD"@) {
                Err(e) => Err(e),
                Ok(st2) => match spec_head_scan(tokens, st2) {
                    Err(e) => Err(e),
                    Ok(st3) => spec_match(tokens, st3, "#OIC"@),
                },
            },
        }
    } else {
        Ok(st)
    }
}

/// Whether a token is one of the four punctuation marks that are emitted
/// without a trailing space.
pub open spec fn is_punct(t: Seq<char>) -> bool {
    t.len() == 1 && (t[0] == '.' || t[0] == ',' || t[0] == '!' || t[0] == '?')
}

/// `PlainText := TEXT`: the token must be ASCII and must not begin with `#`;
/// punctuation is emitted bare, everything else with one trailing space.
pub open spec fn spec_text(tokens: Seq<Seq<char>>, st: PState) -> PRes {
    let t = cur_tok(tokens, st.pos);
    if (t.len() > 0 && t[0] == '#') || !is_ascii_chars(t) {
        Err(ErrSpec::InvalidText(t))
    } else {
        Ok(
            PState {
                pos: next_pos(tokens, st.pos),
                vars: st.vars,
                html: st.html + if is_punct(t) {
                    t
                } else {
                    t + " "@
                },
            },
        )
    }
}

/// `Bold := "BOLD" {TEXT} "#MKAY"`.
pub open spec fn spec_bold(tokens: Seq<Seq<char>>, st: PState) -> PRes {
    match spec_match(tokens, st, "BOLD"@) {
        Err(e) => Err(e),
        Ok(st1) => {
            let j = first_match(tokens, st1.pos, "#MKAY"@);
            if j < tokens.len() {
                Ok(
                    PState {
                        pos: j + 1,
                        vars: st1.vars,
                        html: st1.html + "<b>"@ + join_trailing(tokens.subrange(st1.pos, j))
                            + "</b>"@,
                    },
                )
            } else {
                Err(ErrSpec::Mismatch { expected: "#MKAY"@, found: Seq::empty() })
            }
        },
    }
}

/// `Italics := "ITALICS" {TEXT} "#MKAY"`.
pub open spec fn spec_italics(tokens: Seq<Seq<char>>, st: PState) -> PRes {
    match spec_match(tokens, st, "ITALICS"@) {
        Err(e) => Err(e),
        Ok(st1) => {
            let j = first_match(tokens, st1.pos, "#MKAY"@);
            if j < tokens.len() {
                Ok(
                    PState {
                        pos: j + 1,
                        vars: st1.vars,
                        html: st1.html + "<i>"@ + join_trailing(tokens.subrange(st1.pos, j))
                            + "</i>"@,
                    },
                )
            } else {
                Err(ErrSpec::Mismatch { expected: "#MKAY"@, found: Seq::empty() })
            }
        },
    }
}

/// `Newline := "NEWLINE"`.
pub open spec fn spec_newline(tokens: Seq<Seq<char>>, st: PState) -> PRes {
    match spec_match(tokens, st, "NEWLINE"@) {
        Err(e) => Err(e),
        Ok(st1) => Ok(PState { html: st1.html + "<br/>\n"@, ..st1 }),
    }
}

/// `Audio := "SOUNDZ" URL "#MKAY"`.
pub open spec fn spec_audio(tokens: Seq<Seq<char>>, st: PState) -> PRes {
    match spec_match(tokens, st, "SOUNDZ"@) {
        Err(e) => Err(e),
        Ok(st1) => {
            let url = cur_tok(tokens, st1.pos);
            let st2 = PState { pos: next_pos(tokens, st1.pos), ..st1 };
            match spec_match(tokens, st2, "#MKAY"@) {
                Err(e) => Err(e),
                Ok(st3) => Ok(
                    PState {
                        html: st3.html + "<audio controls>\n  <source src=\""@ + url
                            + "\" type=\"audio/mpeg\">\n</audio>\n"@,
                        ..st3
                    },
                ),
            }
        },
    }
}

/// `Video := "VIDZ" URL "#MKAY"`.
pub open spec fn spec_video(tokens: Seq<Seq<char>>, st: PState) -> PRes {
    match spec_match(tokens, st, "VIDZ"@) {
        Err(e) => Err(e),
        Ok(st1) => {
            let url = cur_tok(tokens, st1.pos);
            let st2 = PState { pos: next_pos(tokens, st1.pos), ..st1 };
            match spec_match(tokens, st2, "#MKAY"@) {
                Err(e) => Err(e),
                Ok(st3) => Ok(
                    PState {
                        html: st3.html + "<video controls>\n  <source src=\""@ + url
                            + "\" type=\"video/mp4\">\n</video>\n"@,
                        ..st3
                    },
                ),
            }
        },
    }
}

/// `VarDefine := "#I" "HAZ" NAME "#IT" "IZ" {TEXT} "#MKAY"`; binds the name
/// to the joined value. The name token is consumed without validation.
pub open spec fn spec_var_define(tokens: Seq<Seq<char>>, st: PState) -> PRes {
    match spec_match(tokens, st, "#I"@) {
        Err(e) => Err(e),
        Ok(st1) => match spec_match(tokens, st1, "HAZ"@) {
            Err(e) => Err(e),
            Ok(st2) => {
                let name = cur_tok(tokens, st2.pos);
                let st3 = PState { pos: next_pos(tokens, st2.pos), ..st2 };
                match spec_match(tokens, st3, "#IT"@) {
                    Err(e) => Err(e),
                    Ok(st4) => match spec_match(tokens, st4, "IZ"@) {
                        Err(e) => Err(e),
                        Ok(st5) => {
                            let j = first_match(tokens, st5.pos, "#MKAY"@);
                            if j < tokens.len() {
                                Ok(
                                    PState {
                                        pos: j + 1,
                                        vars: st5.vars.insert(
                                            name,
                                            join_spaced(tokens.subrange(st5.pos, j)),
                                        ),
                                        html: st5.html,
                                    },
                                )
                            } else {
                                Err(ErrSpec::Mismatch { expected: "#MKAY"@, found: Seq::empty() })
                            }
                        },
                    },
                }
            },
        },
    }
}

/// `VarUse := "#LEMME" "SEE" NAME "#MKAY"`; appends the stored value and one
/// space, or fails if the name was never defined. The name is matched
/// case-sensitively.
pub open spec fn spec_var_use(tokens: Seq<Seq<char>>, st: PState) -> PRes {
    match spec_match(tokens, st, "#LEMME"@) {
        Err(e) => Err(e),
        Ok(st1) => match spec_match(tokens, st1, "SEE"@) {
            Err(e) => Err(e),
            Ok(st2) => {
                let name = cur_tok(tokens, st2.pos);
                let st3 = PState { pos: next_pos(tokens, st2.pos), ..st2 };
                match spec_match(tokens, st3, "#MKAY"@) {
                    Err(e) => Err(e),
                    Ok(st4) => if st4.vars.contains_key(name) {
                        Ok(PState { html: st4.html + st4.vars[name] + " "@, ..st4 })
                    } else {
                        Err(ErrSpec::UndefinedVariable(name))
                    },
                }
            },
        },
    }
}

/// `InlineForm := "#GIMMEH" (Bold|Italics|Newline|Audio|Video) | VarUse |
/// VarDefine | PlainText`.
pub open spec fn spec_inner_text(tokens: Seq<Seq<char>>, st: PState) -> PRes {
    let cur = cur_tok(tokens, st.pos);
    if tok_eq_ci(cur, "#GIMMEH"@) {
        let st1 = PState { pos: next_pos(tokens, st.pos), ..st };
        let cur1 = cur_tok(tokens, st1.pos);
        if tok_eq_ci(cur1, "BOLD"@) {
            spec_bold(tokens, st1)
        } else if tok_eq_ci(cur1, "ITALICS"@) {
            spec_italics(tokens, st1)
        } else if tok_eq_ci(cur1, "NEWLINE"@) {
            spec_newline(tokens, st1)
        } else if tok_eq_ci(cur1, "SOUNDZ"@) {
            spec_audio(tokens, st1)
        } else if tok_eq_ci(cur1, "VIDZ"@) {
            spec_video(tokens, st1)
        } else {
            Err(ErrSpec::UnexpectedConstruct(cur1))
        }
    } else if tok_eq_ci(cur, "#LEMME"@) {
        spec_var_use(tokens, st)
    } else if tok_eq_ci(cur, "#I"@) {
        spec_var_define(tokens, st)
    } else {
        spec_text(tokens, st)
    }
}

/// Inline forms repeated up to `#OIC` or the end of the stream.
pub open spec fn spec_inner_paragraph(tokens: Seq<Seq<char>>, st: PState) -> PRes
    decreases tokens.len() - st.pos
        when 0 <= st.pos <= tokens.len()
{
    let cur = cur_tok(tokens, st.pos);
    if cur.len() == 0 || tok_eq_ci(cur, "#OIC"@) {
        Ok(st)
    } else {
        match spec_inner_text(tokens, st) {
            Err(e) => Err(e),
            Ok(st1) => if st.pos < st1.pos && st1.pos <= tokens.len() {
                spec_inner_paragraph(tokens, st1)
            } else {
                // dead branch: an inline form under a non-empty current token
                // always advances the cursor
                Ok(st1)
            },
        }
    }
}

/// `Paragraph := "#MAEK" "PARAGRAF" {InlineForm} "#OIC"`, wrapped in `<p>`.
pub open spec fn spec_paragraph(tokens: Seq<Seq<char>>, st: PState) -> PRes {
    match spec_match(tokens, st, "#MAEK"@) {
        Err(e) => Err(e),
        Ok(st1) => match spec_match(tokens, st1, "PARAGRAF"@) {
            Err(e) => Err(e),
            Ok(st2) => {
                let st2b = PState { html: st2.html + "<p>"@, ..st2 };
                match spec_inner_paragraph(tokens, st2b) {
                    Err(e) => Err(e),
                    Ok(st3) => spec_match(
                        tokens,
                        PState { html: st3.html + "</p>\n"@, ..st3 },
                        "#OIC"@,
                    ),
                }
            },
        },
    }
}

/// Body items repeated until `#KTHXBYE` or the end of the stream.
pub open spec fn spec_body_items(tokens: Seq<Seq<char>>, st: PState) -> PRes
    decreases tokens.len() - st.pos
        when 0 <= st.pos <= tokens.len()
{
    let cur = cur_tok(tokens, st.pos);
    if cur.len() == 0 || tok_eq_ci(cur, "#KTHXBYE"@) {
        Ok(st)
    } else {
        let item = if tok_eq_ci(cur, "#MAEK"@) {
            spec_paragraph(tokens, st)
        } else if tok_eq_ci(cur, "#GIMMEH"@) {
            spec_inner_text(tokens, st)
        } else if tok_eq_ci(cur, "#LEMME"@) {
            spec_var_use(tokens, st)
        } else if tok_eq_ci(cur, "#I"@) {
            spec_var_define(tokens, st)
        } else {
            spec_text(tokens, st)
        };
        match item {
            Err(e) => Err(e),
            Ok(st1) => if st.pos < st1.pos && st1.pos <= tokens.len() {
                spec_body_items(tokens, st1)
            } else {
                // dead branch: a body item under a non-empty current token
                // always advances the cursor
                Ok(st1)
            },
        }
    }
}

/// `Body := {BodyItem}` followed by the single closing emission.
pub open spec fn spec_body(tokens: Seq<Seq<char>>, st: PState) -> PRes {
    match spec_body_items(tokens, st) {
        Err(e) => Err(e),
        Ok(st1) => Ok(PState { html: st1.html + "</body></html>"@, ..st1 }),
    }
}

/// Items of a list, each `"#GIMMEH" "ITEM" InlineForm "#MKAY"`.
pub open spec fn spec_list_items(tokens: Seq<Seq<char>>, st: PState) -> PRes
    decreases tokens.len() - st.pos
        when 0 <= st.pos <= tokens.len()
{
    if !tok_eq_ci(cur_tok(tokens, st.pos), "#GIMMEH"@) {
        Ok(st)
    } else {
        match spec_match(tokens, st, "#GIMMEH"@) {
            Err(e) => Err(e),
            Ok(st1) => match spec_match(tokens, st1, "ITEM"@) {
                Err(e) => Err(e),
                Ok(st2) => {
                    let st2b = PState { html: st2.html + "<li>"@, ..st2 };
                    match spec_inner_text(tokens, st2b) {
                        Err(e) => Err(e),
                        Ok(st3) => {
                            let st3b = PState { html: st3.html + "</li>\n"@, ..st3 };
                            match spec_match(tokens, st3b, "#MKAY"@) {
                                Err(e) => Err(e),
                                Ok(st4) => if st.pos < st4.pos && st4.pos <= tokens.len() {
                                    spec_list_items(tokens, st4)
                                } else {
                                    // dead branch: a list item always advances
                                    // the cursor
                                    Ok(st4)
                                },
                            }
                        },
                    }
                },
            },
        }
    }
}

/// `List := "#MAEK" "LIST" {ListItem} "#OIC"`, wrapped in `<ul>`.
pub open spec fn spec_list(tokens: Seq<Seq<char>>, st: PState) -> PRes {
    match spec_match(tokens, st, "#MAEK"@) {
        Err(e) => Err(e),
        Ok(st1) => match spec_match(tokens, st1, "LIST"@) {
            Err(e) => Err(e),
            Ok(st2) => {
                let st2b = PState { html: st2.html + "<ul>\n"@, ..st2 };
                match spec_list_items(tokens, st2b) {
                    Err(e) => Err(e),
                    Ok(st3) => spec_match(
                        tokens,
                        PState { html: st3.html + "</ul>\n"@, ..st3 },
                        "#OIC"@,
                    ),
                }
            },
        },
    }
}

/// `Program := "#HAI" {Comment} Head Body "#KTHXBYE"`. Tokens after
/// `#KTHXBYE` are ignored.
pub open spec fn spec_program(tokens: Seq<Seq<char>>, st: PState) -> PRes {
    match spec_match(tokens, st, "#HAI"@) {
        Err(e) => Err(e),
        Ok(st1) => match spec_comments(tokens, st1) {
            Err(e) => Err(e),
            Ok(st2) => match spec_head(tokens, st2) {
                Err(e) => Err(e),
                Ok(st3) => match spec_body(tokens, st3) {
                    Err(e) => Err(e),
                    Ok(st4) => spec_match(tokens, st4, "#KTHXBYE"@),
                },
            },
        },
    }
}

/// A whole compilation: lex the source, reject an empty token stream, then
/// run the program production from position zero over the given symbol table
/// and HTML buffer.
pub open spec fn spec_compile(
    source: Seq<char>,
    vars0: Map<Seq<char>, Seq<char>>,
    html0: Seq<char>,
) -> PRes {
    match spec_tokenize(source) {
        Err(e) => Err(e),
        Ok(toks) => if toks.len() == 0 {
            Err(ErrSpec::EmptyInput)
        } else {
            spec_program(toks, PState { pos: 0, vars: vars0, html: html0 })
        },
    }
}

} // verus!
