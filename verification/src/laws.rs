//! Laws of the library: properties that hold of every input, stated over the
//! specification functions of `model` and proved once and for all.
use vstd::prelude::*;
use crate::lemmas::keyword_lengths;
use crate::lemmas::lemma_comment_mono;
use crate::lemmas::lemma_match_mono;
use crate::model::spec_compile;
use crate::lemmas::lemma_title_mono;
use crate::lemmas::lemma_scan_end;
use crate::model::cur_tok;
use crate::model::flush;
use crate::model::is_url_char;
use crate::model::is_ws_char;
use crate::model::join_spaced;
use crate::model::is_punct;
use crate::model::lex;
use crate::model::scan_end;
use crate::model::spec_body;
use crate::model::spec_body_items;
use crate::model::spec_comments;
use crate::model::spec_head;
use crate::model::spec_head_scan;
use crate::model::spec_inner_paragraph;
use crate::model::spec_inner_text;
use crate::model::spec_paragraph;
use crate::model::spec_match;
use crate::model::spec_program;
use crate::model::spec_text;
use crate::model::spec_title;
use crate::model::spec_tokenize;
use crate::model::spec_var_define;
use crate::model::spec_var_use;
use crate::model::tok_eq_ci;
use crate::model::valid_special;
use crate::model::ErrSpec;
use crate::model::PState;

verus! {

// ---------------------------------------------------------------------------
// Lexing is total on clean sources
// ---------------------------------------------------------------------------

/// A source is clean when every `#`-opened candidate token is a keyword or
/// begins with `http`.
pub open spec fn clean_source(chars: Seq<char>) -> bool {
    forall|k: int|
        0 <= k < chars.len() && chars[k] == '#' ==> #[trigger] valid_special(
            chars.subrange(k, scan_end(chars, k + 1)),
        )
}

proof fn lemma_lex_total(chars: Seq<char>, i: int, pending: Seq<char>, acc: Seq<Seq<char>>)
    requires
        0 <= i <= chars.len(),
        clean_source(chars),
    ensures
        lex(chars, i, pending, acc) is Ok,
    decreases chars.len() - i,
{
    if i >= chars.len() {
    } else {
        let c = chars[i];
        if crate::model::is_ws_char(c) {
            lemma_lex_total(chars, i + 1, Seq::empty(), crate::model::flush(acc, pending));
        } else if c == '#' {
            lemma_scan_end(chars, i + 1);
            let j = scan_end(chars, i + 1);
            assert(valid_special(chars.subrange(i, scan_end(chars, i + 1))));
            lemma_lex_total(
                chars,
                j,
                Seq::empty(),
                crate::model::flush(acc, pending).push(chars.subrange(i, j)),
            );
        } else {
            lemma_lex_total(chars, i + 1, pending.push(c), acc);
        }
    }
}

/// On a source whose every `#`-opened token is a keyword or begins with
/// `http`, lexing never fails.
pub proof fn lemma_clean_source_lexes(source: Seq<char>)
    requires
        clean_source(source),
    ensures
        spec_tokenize(source) is Ok,
{
    lemma_lex_total(source, 0, Seq::empty(), Seq::empty());
}

// ---------------------------------------------------------------------------
// Lexing is idempotent
// ---------------------------------------------------------------------------

/// The shape every emitted token has: non-empty; a special token is `#`
/// followed by URL-safe characters and is valid; a plain token holds neither
/// whitespace nor `#`.
pub open spec fn wf_token(t: Seq<char>) -> bool {
    t.len() > 0 && if t[0] == '#' {
        (forall|k: int| 1 <= k < t.len() ==> is_url_char(#[trigger] t[k])) && valid_special(t)
    } else {
        forall|k: int| 0 <= k < t.len() ==> !is_ws_char(#[trigger] t[k]) && t[k] != '#'
    }
}

proof fn lemma_lex_wf_tokens(chars: Seq<char>, i: int, pending: Seq<char>, acc: Seq<Seq<char>>)
    requires
        0 <= i <= chars.len(),
        forall|k: int| 0 <= k < acc.len() ==> wf_token(#[trigger] acc[k]),
        forall|k: int|
            0 <= k < pending.len() ==> !is_ws_char(#[trigger] pending[k]) && pending[k] != '#',
    ensures
        lex(chars, i, pending, acc) matches Ok(ts) ==> forall|k: int|
            0 <= k < ts.len() ==> wf_token(#[trigger] ts[k]),
    decreases chars.len() - i,
{
    if i >= chars.len() {
    } else {
        let c = chars[i];
        if is_ws_char(c) {
            lemma_lex_wf_tokens(chars, i + 1, Seq::empty(), flush(acc, pending));
        } else if c == '#' {
            lemma_scan_end(chars, i + 1);
            let j = scan_end(chars, i + 1);
            let tok = chars.subrange(i, j);
            if valid_special(tok) {
                assert(wf_token(tok)) by {
                    assert(forall|k: int| 1 <= k < tok.len() ==> is_url_char(#[trigger] tok[k]));
                }
                lemma_lex_wf_tokens(chars, j, Seq::empty(), flush(acc, pending).push(tok));
            }
        } else {
            lemma_lex_wf_tokens(chars, i + 1, pending.push(c), acc);
        }
    }
}

proof fn lemma_scan_end_value(chars: Seq<char>, i: int, e: int)
    requires
        0 <= i <= e <= chars.len(),
        forall|k: int| i <= k < e ==> is_url_char(#[trigger] chars[k]),
        e == chars.len() || !is_url_char(chars[e]),
    ensures
        scan_end(chars, i) == e,
    decreases e - i,
{
    if i < e {
        lemma_scan_end_value(chars, i + 1, e);
    }
}

proof fn lemma_scan_shift(p: Seq<char>, rest: Seq<char>, i: int)
    requires
        p.len() <= i <= p.len() + rest.len(),
    ensures
        scan_end(p + rest, i) == p.len() + scan_end(rest, i - p.len()),
    decreases p.len() + rest.len() - i,
{
    assert((p + rest).len() == p.len() + rest.len());
    if i < p.len() + rest.len() {
        assert((p + rest)[i] == rest[i - p.len()]);
        if is_url_char(rest[i - p.len()]) {
            lemma_scan_shift(p, rest, i + 1);
        }
    }
}

proof fn lemma_lex_shift(
    p: Seq<char>,
    rest: Seq<char>,
    i: int,
    pending: Seq<char>,
    acc: Seq<Seq<char>>,
)
    requires
        p.len() <= i <= p.len() + rest.len(),
    ensures
        lex(p + rest, i, pending, acc) == lex(rest, i - p.len(), pending, acc),
    decreases p.len() + rest.len() - i,
{
    let whole = p + rest;
    assert(whole.len() == p.len() + rest.len());
    if i >= whole.len() {
    } else {
        let c = whole[i];
        assert(c == rest[i - p.len()]);
        if is_ws_char(c) {
            lemma_lex_shift(p, rest, i + 1, Seq::empty(), flush(acc, pending));
        } else if c == '#' {
            lemma_scan_shift(p, rest, i + 1);
            lemma_scan_end(whole, i + 1);
            let j = scan_end(whole, i + 1);
            let j2 = scan_end(rest, i + 1 - p.len());
            assert(j == p.len() + j2);
            assert(whole.subrange(i, j) =~= rest.subrange(i - p.len(), j2));
            if i < j && j <= whole.len() {
                let tok = whole.subrange(i, j);
                if valid_special(tok) {
                    lemma_lex_shift(p, rest, j, Seq::empty(), flush(acc, pending).push(tok));
                }
            }
        } else {
            lemma_lex_shift(p, rest, i + 1, pending.push(c), acc);
        }
    }
}

proof fn lemma_lex_plain_run(
    chars: Seq<char>,
    i: int,
    e: int,
    pending: Seq<char>,
    acc: Seq<Seq<char>>,
)
    requires
        0 <= i <= e <= chars.len(),
        forall|k: int| i <= k < e ==> !is_ws_char(#[trigger] chars[k]) && chars[k] != '#',
    ensures
        lex(chars, i, pending, acc) == lex(chars, e, pending + chars.subrange(i, e), acc),
    decreases e - i,
{
    if i == e {
        assert(pending + chars.subrange(i, e) =~= pending);
    } else {
        let c = chars[i];
        lemma_lex_plain_run(chars, i + 1, e, pending.push(c), acc);
        assert(pending.push(c) + chars.subrange(i + 1, e) =~= pending + chars.subrange(i, e));
    }
}

/// Lexing one rendered token: a single well-formed token, alone in the
/// source, lexes to itself.
proof fn lemma_relex(ts: Seq<Seq<char>>, acc: Seq<Seq<char>>)
    requires
        forall|k: int| 0 <= k < ts.len() ==> wf_token(#[trigger] ts[k]),
    ensures
        lex(join_spaced(ts), 0, Seq::empty(), acc) == Ok::<Seq<Seq<char>>, ErrSpec>(acc + ts),
    decreases ts.len(),
{
    keyword_lengths();
    if ts.len() == 0 {
        assert(join_spaced(ts).len() == 0);
        assert(flush(acc, Seq::empty()) =~= acc + ts);
    } else if ts.len() == 1 {
        let t = ts[0];
        assert(wf_token(t));
        let src = join_spaced(ts);
        assert(src == t);
        if t[0] == '#' {
            lemma_scan_end_value(t, 1, t.len() as int);
            assert(t.subrange(0, t.len() as int) =~= t);
            assert(lex(src, 0, Seq::empty(), acc) == lex(t, t.len() as int, Seq::empty(), acc.push(t)));
            assert(flush(acc.push(t), Seq::empty()) == acc.push(t));
        } else {
            lemma_lex_plain_run(t, 0, t.len() as int, Seq::empty(), acc);
            assert(Seq::empty() + t.subrange(0, t.len() as int) =~= t);
            assert(lex(src, 0, Seq::empty(), acc) == lex(t, t.len() as int, t, acc));
            assert(flush(acc, t) == acc.push(t));
        }
        assert(acc.push(t) =~= acc + ts);
    } else {
        let t = ts[0];
        let rest = ts.drop_first();
        assert(wf_token(t));
        let src = join_spaced(ts);
        assert(src == t + " "@ + join_spaced(rest));
        let p = t + " "@;
        assert(src =~= p + join_spaced(rest));
        assert(p[t.len() as int] == ' ');
        assert(src[t.len() as int] == ' ');
        if t[0] == '#' {
            assert(forall|k: int| 1 <= k < t.len() ==> #[trigger] src[k] == t[k]);
            lemma_scan_end_value(src, 1, t.len() as int);
            assert(src.subrange(0, t.len() as int) =~= t);
            assert(lex(src, 0, Seq::empty(), acc) == lex(
                src,
                t.len() as int,
                Seq::empty(),
                acc.push(t),
            ));
        } else {
            assert(forall|k: int| 0 <= k < t.len() ==> #[trigger] src[k] == t[k]);
            lemma_lex_plain_run(src, 0, t.len() as int, Seq::empty(), acc);
            assert(Seq::empty() + src.subrange(0, t.len() as int) =~= t);
            assert(lex(src, 0, Seq::empty(), acc) == lex(src, t.len() as int, t, acc));
        }
        // the separating space flushes the token
        assert(lex(src, t.len() as int, t, acc) == lex(
            src,
            t.len() as int + 1,
            Seq::empty(),
            acc.push(t),
        ));
        assert(lex(src, t.len() as int, Seq::empty(), acc.push(t)) == lex(
            src,
            t.len() as int + 1,
            Seq::empty(),
            acc.push(t),
        ));
        assert(src =~= p + join_spaced(rest));
        lemma_lex_shift(p, join_spaced(rest), t.len() as int + 1, Seq::empty(), acc.push(t));
        lemma_relex(rest, acc.push(t));
        assert(acc.push(t) + rest =~= acc + ts);
    }
}

/// Lexing is idempotent: rendering the tokens of a source left-to-right with
/// single spaces and lexing again reproduces exactly the same tokens.
pub proof fn lemma_tokenize_idempotent(source: Seq<char>)
    requires
        spec_tokenize(source) is Ok,
    ensures
        spec_tokenize(join_spaced(spec_tokenize(source)->Ok_0)) == Ok::<Seq<Seq<char>>, ErrSpec>(
            spec_tokenize(source)->Ok_0,
        ),
{
    let ts = spec_tokenize(source)->Ok_0;
    lemma_lex_wf_tokens(source, 0, Seq::empty(), Seq::empty());
    lemma_relex(ts, Seq::empty());
    assert(Seq::<Seq<char>>::empty() + ts =~= ts);
}


/// Lexing fails only with a lexical error.
proof fn lemma_lex_err_is_lexical(chars: Seq<char>, i: int, pending: Seq<char>, acc: Seq<Seq<char>>)
    requires
        0 <= i <= chars.len(),
    ensures
        lex(chars, i, pending, acc) matches Err(e) ==> e matches ErrSpec::Lexical(_),
    decreases chars.len() - i,
{
    if i < chars.len() {
        let c = chars[i];
        if is_ws_char(c) {
            lemma_lex_err_is_lexical(chars, i + 1, Seq::empty(), flush(acc, pending));
        } else if c == '#' {
            lemma_scan_end(chars, i + 1);
            let j = scan_end(chars, i + 1);
            if i < j && j <= chars.len() && valid_special(chars.subrange(i, j)) {
                lemma_lex_err_is_lexical(
                    chars,
                    j,
                    Seq::empty(),
                    flush(acc, pending).push(chars.subrange(i, j)),
                );
            }
        } else {
            lemma_lex_err_is_lexical(chars, i + 1, pending.push(c), acc);
        }
    }
}

/// An inline form never fails with the empty-input error.
proof fn lemma_inner_text_not_empty_input(tokens: Seq<Seq<char>>, st: PState)
    ensures
        spec_inner_text(tokens, st) matches Err(e) ==> !(e matches ErrSpec::EmptyInput),
{
}

/// The comment run never fails with the empty-input error.
proof fn lemma_comments_not_empty_input(tokens: Seq<Seq<char>>, st: PState)
    requires
        0 <= st.pos <= tokens.len(),
    ensures
        spec_comments(tokens, st) matches Err(e) ==> !(e matches ErrSpec::EmptyInput),
    decreases tokens.len() - st.pos,
{
    if tok_eq_ci(cur_tok(tokens, st.pos), "#OBTW"@) {
        if let Ok(st1) = crate::model::spec_comment(tokens, st) {
            if st.pos < st1.pos && st1.pos <= tokens.len() {
                lemma_comments_not_empty_input(tokens, st1);
            }
        }
    }
}

/// The head scan never fails with the empty-input error.
proof fn lemma_head_scan_not_empty_input(tokens: Seq<Seq<char>>, st: PState)
    requires
        0 <= st.pos <= tokens.len(),
    ensures
        spec_head_scan(tokens, st) matches Err(e) ==> !(e matches ErrSpec::EmptyInput),
    decreases tokens.len() - st.pos,
{
    let cur = cur_tok(tokens, st.pos);
    if cur.len() == 0 || tok_eq_ci(cur, "#OIC"@) {
    } else if tok_eq_ci(cur, "#GIMMEH"@) {
        if let Ok(st1) = spec_title(tokens, st) {
            if st.pos < st1.pos && st1.pos <= tokens.len() {
                lemma_head_scan_not_empty_input(tokens, st1);
            }
        }
    } else {
        lemma_head_scan_not_empty_input(tokens, PState { pos: st.pos + 1, ..st });
    }
}

/// The inside of a paragraph never fails with the empty-input error.
proof fn lemma_inner_paragraph_not_empty_input(tokens: Seq<Seq<char>>, st: PState)
    requires
        0 <= st.pos <= tokens.len(),
    ensures
        spec_inner_paragraph(tokens, st) matches Err(e) ==> !(e matches ErrSpec::EmptyInput),
    decreases tokens.len() - st.pos,
{
    let cur = cur_tok(tokens, st.pos);
    if cur.len() == 0 || tok_eq_ci(cur, "#OIC"@) {
    } else {
        lemma_inner_text_not_empty_input(tokens, st);
        if let Ok(st1) = spec_inner_text(tokens, st) {
            if st.pos < st1.pos && st1.pos <= tokens.len() {
                lemma_inner_paragraph_not_empty_input(tokens, st1);
            }
        }
    }
}

/// A body item run never fails with the empty-input error.
proof fn lemma_body_items_not_empty_input(tokens: Seq<Seq<char>>, st: PState)
    requires
        0 <= st.pos <= tokens.len(),
    ensures
        spec_body_items(tokens, st) matches Err(e) ==> !(e matches ErrSpec::EmptyInput),
    decreases tokens.len() - st.pos,
{
    let cur = cur_tok(tokens, st.pos);
    if cur.len() == 0 || tok_eq_ci(cur, "#KTHXBYE"@) {
    } else {
        let item = if tok_eq_ci(cur, "#MAEK"@) {
            spec_paragraph(tokens, st)
        } else if tok_eq_ci(cur, "#GIMMEH"@) {
            spec_inner_text(tokens, st)
        } else if tok_eq_ci(cur, "#LEMME"@) {
            spec_var_use(tokens, st)
        } else if tok_eq_ci(cur, "#I"@) {
            spec_var_define(tokens, st)
        } else {
            spec_text(tokens, st)
        };
        lemma_inner_text_not_empty_input(tokens, st);
        if tok_eq_ci(cur, "#MAEK"@) {
            if let Ok(sa) = spec_match(tokens, st, "#MAEK"@) {
                if let Ok(sb) = spec_match(tokens, sa, "PARAGRAF"@) {
                    keyword_lengths();
                    lemma_match_mono(tokens, st, "#MAEK"@);
                    lemma_match_mono(tokens, sa, "PARAGRAF"@);
                    lemma_inner_paragraph_not_empty_input(
                        tokens,
                        PState { html: sb.html + "<p>"@, ..sb },
                    );
                }
            }
        }
        if let Ok(st1) = item {
            if st.pos < st1.pos && st1.pos <= tokens.len() {
                lemma_body_items_not_empty_input(tokens, st1);
            }
        }
    }
}

/// A program never fails with the empty-input error: that error belongs to
/// the empty token stream alone.
proof fn lemma_program_not_empty_input(tokens: Seq<Seq<char>>, st: PState)
    requires
        0 <= st.pos <= tokens.len(),
    ensures
        spec_program(tokens, st) matches Err(e) ==> !(e matches ErrSpec::EmptyInput),
{
    keyword_lengths();
    lemma_match_mono(tokens, st, "#HAI"@);
    if let Ok(sa) = spec_match(tokens, st, "#HAI"@) {
        lemma_comments_not_empty_input(tokens, sa);
        lemma_comments_html_eq(tokens, sa);
        if let Ok(sb) = spec_comments(tokens, sa) {
            if tok_eq_ci(cur_tok(tokens, sb.pos), "#MAEK"@) {
                lemma_match_mono(tokens, sb, "#MAEK"@);
                if let Ok(s1) = spec_match(tokens, sb, "#MAEK"@) {
                    lemma_match_mono(tokens, s1, "HEAD"@);
                    if let Ok(s2) = spec_match(tokens, s1, "HEAD"@) {
                        lemma_head_scan_not_empty_input(tokens, s2);
                        lemma_head_scan_extends(tokens, s2);
                        if let Ok(s3) = spec_head_scan(tokens, s2) {
                            lemma_match_mono(tokens, s3, "#OIC"@);
                        }
                    }
                }
            }
            if let Ok(sc) = spec_head(tokens, sb) {
                lemma_body_items_not_empty_input(tokens, sc);
            }
        }
    }
}

/// The empty-input error comes exactly on the empty token stream: a
/// compilation that fails reports it if and only if the source lexed to zero
/// tokens.
pub proof fn lemma_input_error_only_on_empty(
    source: Seq<char>,
    vars0: Map<Seq<char>, Seq<char>>,
    html0: Seq<char>,
)
    ensures
        spec_compile(source, vars0, html0) matches Err(e) ==> ((e matches ErrSpec::EmptyInput)
            <==> (spec_tokenize(source) matches Ok(ts) && ts.len() == 0)),
{
    lemma_lex_err_is_lexical(source, 0, Seq::empty(), Seq::empty());
    if let Ok(ts) = spec_tokenize(source) {
        if ts.len() > 0 {
            lemma_program_not_empty_input(ts, PState { pos: 0, vars: vars0, html: html0 });
        }
    }
}

/// Lexing a source runs into its first invalid `#`-opened candidate and
/// nothing later: at `k`, a `#` whose candidate is neither keyword nor
/// `http`-prefixed, with every earlier `#` candidate valid.
proof fn lemma_lex_hits_first_invalid(
    chars: Seq<char>,
    i: int,
    k: int,
    pending: Seq<char>,
    acc: Seq<Seq<char>>,
)
    requires
        0 <= i <= k < chars.len(),
        chars[k] == '#',
        !valid_special(chars.subrange(k, scan_end(chars, k + 1))),
        forall|m: int|
            i <= m < k && chars[m] == '#' ==> valid_special(
                #[trigger] chars.subrange(m, scan_end(chars, m + 1)),
            ),
    ensures
        lex(chars, i, pending, acc) == Err::<Seq<Seq<char>>, ErrSpec>(
            ErrSpec::Lexical(chars.subrange(k, scan_end(chars, k + 1))),
        ),
    decreases chars.len() - i,
{
    let c = chars[i];
    if i == k {
        lemma_scan_end(chars, i + 1);
    } else if is_ws_char(c) {
        lemma_lex_hits_first_invalid(chars, i + 1, k, Seq::empty(), flush(acc, pending));
    } else if c == '#' {
        lemma_scan_end(chars, i + 1);
        let j = scan_end(chars, i + 1);
        assert(j <= k) by {
            if j > k {
                assert(is_url_char(chars[k]));
            }
        }
        assert(valid_special(chars.subrange(i, scan_end(chars, i + 1))));
        lemma_lex_hits_first_invalid(
            chars,
            j,
            k,
            Seq::empty(),
            flush(acc, pending).push(chars.subrange(i, j)),
        );
    } else {
        lemma_lex_hits_first_invalid(chars, i + 1, k, pending.push(c), acc);
    }
}

/// A source whose first invalid special token opens at `k` fails to lex, and
/// so to compile, with the lexical error naming exactly that candidate —
/// before any parsing, whatever the symbol table and buffer held.
pub proof fn lemma_first_invalid_token_is_fatal(
    source: Seq<char>,
    k: int,
    vars0: Map<Seq<char>, Seq<char>>,
    html0: Seq<char>,
)
    requires
        0 <= k < source.len(),
        source[k] == '#',
        !valid_special(source.subrange(k, scan_end(source, k + 1))),
        forall|m: int|
            0 <= m < k && source[m] == '#' ==> valid_special(
                #[trigger] source.subrange(m, scan_end(source, m + 1)),
            ),
    ensures
        spec_tokenize(source) == Err::<Seq<Seq<char>>, ErrSpec>(
            ErrSpec::Lexical(source.subrange(k, scan_end(source, k + 1))),
        ),
        spec_compile(source, vars0, html0) == Err::<PState, ErrSpec>(
            ErrSpec::Lexical(source.subrange(k, scan_end(source, k + 1))),
        ),
{
    lemma_lex_hits_first_invalid(source, 0, k, Seq::empty(), Seq::empty());
}

// ---------------------------------------------------------------------------
// Defining and then using a variable
// ---------------------------------------------------------------------------

/// A variable definition followed by a use of the same name (written
/// case-sensitively as it was defined) succeeds and appends exactly the
/// defined value and one trailing space to the HTML buffer.
pub proof fn lemma_define_then_use(tokens: Seq<Seq<char>>, st: PState)
    requires
        0 <= st.pos <= tokens.len(),
        spec_var_define(tokens, st) is Ok,
        ({
            let st1 = spec_var_define(tokens, st)->Ok_0;
            &&& tok_eq_ci(cur_tok(tokens, st1.pos), "#LEMME"@)
            &&& tok_eq_ci(cur_tok(tokens, st1.pos + 1), "SEE"@)
            &&& cur_tok(tokens, st1.pos + 2) == cur_tok(tokens, st.pos + 2)
            &&& tok_eq_ci(cur_tok(tokens, st1.pos + 3), "#MKAY"@)
        }),
    ensures
        spec_var_use(tokens, spec_var_define(tokens, st)->Ok_0) is Ok,
        ({
            let st1 = spec_var_define(tokens, st)->Ok_0;
            let st2 = spec_var_use(tokens, st1)->Ok_0;
            st2.html == st1.html + st1.vars[cur_tok(tokens, st.pos + 2)] + " "@
        }),
{
    keyword_lengths();
    let st1 = spec_var_define(tokens, st)->Ok_0;
    assert(st1.vars.contains_key(cur_tok(tokens, st.pos + 2)));
}

/// Using a name that the symbol table does not hold fails with the
/// undefined-variable error naming it.
pub proof fn lemma_use_before_define(tokens: Seq<Seq<char>>, st: PState)
    requires
        0 <= st.pos <= tokens.len(),
        tok_eq_ci(cur_tok(tokens, st.pos), "#LEMME"@),
        tok_eq_ci(cur_tok(tokens, st.pos + 1), "SEE"@),
        tok_eq_ci(cur_tok(tokens, st.pos + 3), "#MKAY"@),
        !st.vars.contains_key(cur_tok(tokens, st.pos + 2)),
    ensures
        spec_var_use(tokens, st) == Err::<PState, ErrSpec>(
            ErrSpec::UndefinedVariable(cur_tok(tokens, st.pos + 2)),
        ),
{
    keyword_lengths();
}

// ---------------------------------------------------------------------------
// Spacing of plain tokens
// ---------------------------------------------------------------------------

/// A punctuation token is appended bare; every other plain token is appended
/// with exactly one trailing space and nothing before it.
pub proof fn lemma_plain_text_spacing(tokens: Seq<Seq<char>>, st: PState)
    requires
        0 <= st.pos <= tokens.len(),
    ensures
        spec_text(tokens, st) matches Ok(st1) ==> ({
            let t = cur_tok(tokens, st.pos);
            if is_punct(t) {
                st1.html == st.html + t
            } else {
                st1.html == st.html + t + " "@
            }
        }),
{
    if let Ok(st1) = spec_text(tokens, st) {
        let t = cur_tok(tokens, st.pos);
        if !is_punct(t) {
            assert(st.html + (t + " "@) =~= st.html + t + " "@);
        }
    }
}

// ---------------------------------------------------------------------------
// Shape of a successfully parsed program
// ---------------------------------------------------------------------------

/// `b` carries `a` unchanged as its prefix.
pub open spec fn html_extends(a: Seq<char>, b: Seq<char>) -> bool {
    b.len() >= a.len() && b.subrange(0, a.len() as int) == a
}

/// The output of every successful program ends with the single closing
/// emission `</body></html>`.
pub proof fn lemma_program_ends_closed(tokens: Seq<Seq<char>>, st: PState)
    requires
        0 <= st.pos <= tokens.len(),
        spec_program(tokens, st) is Ok,
    ensures
        ({
            let h = spec_program(tokens, st)->Ok_0.html;
            h.len() >= "</body></html>"@.len() && h.subrange(
                h.len() - "</body></html>"@.len(),
                h.len() as int,
            ) == "</body></html>"@
        }),
{
    let sa = spec_match(tokens, st, "#HAI"@)->Ok_0;
    let sb = spec_comments(tokens, sa)->Ok_0;
    let sc = spec_head(tokens, sb)->Ok_0;
    let sd = spec_body(tokens, sc)->Ok_0;
    let sbi = spec_body_items(tokens, sc)->Ok_0;
    assert(sd.html == sbi.html + "</body></html>"@);
    let h = spec_program(tokens, st)->Ok_0.html;
    assert(h == sd.html);
    assert(h.subrange(h.len() - "</body></html>"@.len(), h.len() as int) =~= "</body></html>"@);
}

/// Appending only ever extends a buffer.
proof fn lemma_extends_append(a: Seq<char>, b: Seq<char>)
    ensures
        html_extends(a, a + b),
{
    assert((a + b).subrange(0, a.len() as int) =~= a);
}

/// A buffer extends itself.
proof fn lemma_extends_refl(a: Seq<char>)
    ensures
        html_extends(a, a),
{
    assert(a.subrange(0, a.len() as int) =~= a);
}

/// Extension composes.
proof fn lemma_extends_trans(a: Seq<char>, b: Seq<char>, c: Seq<char>)
    requires
        html_extends(a, b),
        html_extends(b, c),
    ensures
        html_extends(a, c),
{
    assert(c.subrange(0, a.len() as int) =~= a) by {
        assert(forall|i: int|
            0 <= i < a.len() ==> c.subrange(0, b.len() as int)[i] == #[trigger] c[i]);
        assert(forall|i: int|
            0 <= i < a.len() ==> b.subrange(0, a.len() as int)[i] == #[trigger] b[i]);
    }
}

/// Comments leave the HTML buffer untouched.
proof fn lemma_comments_html_eq(tokens: Seq<Seq<char>>, st: PState)
    requires
        0 <= st.pos <= tokens.len(),
    ensures
        spec_comments(tokens, st) matches Ok(st1) ==> st1.html == st.html && st1.vars == st.vars
            && 0 <= st1.pos <= tokens.len(),
    decreases tokens.len() - st.pos,
{
    if tok_eq_ci(cur_tok(tokens, st.pos), "#OBTW"@) {
        lemma_comment_mono(tokens, st);
        if let Ok(stc) = crate::model::spec_comment(tokens, st) {
            if st.pos < stc.pos && stc.pos <= tokens.len() {
                lemma_comments_html_eq(tokens, stc);
            }
        }
    }
}

/// A title only appends to the buffer.
proof fn lemma_title_extends(tokens: Seq<Seq<char>>, st: PState)
    ensures
        spec_title(tokens, st) matches Ok(st1) ==> html_extends(st.html, st1.html),
{
    if let Ok(st1) = spec_title(tokens, st) {
        assert(st1.html.subrange(0, st.html.len() as int) =~= st.html);
    }
}

/// An inline form only appends to the buffer.
proof fn lemma_inner_text_extends(tokens: Seq<Seq<char>>, st: PState)
    ensures
        spec_inner_text(tokens, st) matches Ok(st1) ==> html_extends(st.html, st1.html),
{
    if let Ok(st1) = spec_inner_text(tokens, st) {
        assert(st1.html.subrange(0, st.html.len() as int) =~= st.html);
    }
}

/// The inside of a paragraph only appends to the buffer.
proof fn lemma_inner_paragraph_extends(tokens: Seq<Seq<char>>, st: PState)
    requires
        0 <= st.pos <= tokens.len(),
    ensures
        spec_inner_paragraph(tokens, st) matches Ok(st1) ==> html_extends(st.html, st1.html),
    decreases tokens.len() - st.pos,
{
    let cur = cur_tok(tokens, st.pos);
    if cur.len() == 0 || tok_eq_ci(cur, "#OIC"@) {
        lemma_extends_refl(st.html);
    } else {
        lemma_inner_text_extends(tokens, st);
        if let Ok(sti) = spec_inner_text(tokens, st) {
            if st.pos < sti.pos && sti.pos <= tokens.len() {
                lemma_inner_paragraph_extends(tokens, sti);
                if let Ok(st1) = spec_inner_paragraph(tokens, sti) {
                    lemma_extends_trans(st.html, sti.html, st1.html);
                }
            } else {
                lemma_extends_refl(sti.html);
            }
        }
    }
}

/// A paragraph only appends to the buffer.
proof fn lemma_paragraph_extends(tokens: Seq<Seq<char>>, st: PState)
    requires
        0 <= st.pos <= tokens.len(),
    ensures
        spec_paragraph(tokens, st) matches Ok(st1) ==> html_extends(st.html, st1.html),
{
    keyword_lengths();
    if let Ok(sta) = spec_match(tokens, st, "#MAEK"@) {
        if let Ok(stb) = spec_match(tokens, sta, "PARAGRAF"@) {
            let stb2 = PState { html: stb.html + "<p>"@, ..stb };
            lemma_inner_paragraph_extends(tokens, stb2);
            if let Ok(stc) = spec_inner_paragraph(tokens, stb2) {
                lemma_extends_append(st.html, "<p>"@);
                lemma_extends_trans(st.html, stb2.html, stc.html);
                lemma_extends_append(stc.html, "</p>\n"@);
                lemma_extends_trans(st.html, stc.html, stc.html + "</p>\n"@);
            }
        }
    }
}

/// A body item only appends to the buffer.
proof fn lemma_body_items_extends(tokens: Seq<Seq<char>>, st: PState)
    requires
        0 <= st.pos <= tokens.len(),
    ensures
        spec_body_items(tokens, st) matches Ok(st1) ==> html_extends(st.html, st1.html),
    decreases tokens.len() - st.pos,
{
    let cur = cur_tok(tokens, st.pos);
    if cur.len() == 0 || tok_eq_ci(cur, "#KTHXBYE"@) {
        lemma_extends_refl(st.html);
    } else {
        let item = if tok_eq_ci(cur, "#MAEK"@) {
            spec_paragraph(tokens, st)
        } else if tok_eq_ci(cur, "#GIMMEH"@) {
            spec_inner_text(tokens, st)
        } else if tok_eq_ci(cur, "#LEMME"@) {
            spec_var_use(tokens, st)
        } else if tok_eq_ci(cur, "#I"@) {
            spec_var_define(tokens, st)
        } else {
            spec_text(tokens, st)
        };
        lemma_paragraph_extends(tokens, st);
        lemma_inner_text_extends(tokens, st);
        if let Ok(sti) = item {
            assert(html_extends(st.html, sti.html)) by {
                if !(tok_eq_ci(cur, "#MAEK"@) || tok_eq_ci(cur, "#GIMMEH"@)) {
                    assert(sti.html.subrange(0, st.html.len() as int) =~= st.html);
                }
            }
            if st.pos < sti.pos && sti.pos <= tokens.len() {
                lemma_body_items_extends(tokens, sti);
                if let Ok(st1) = spec_body_items(tokens, sti) {
                    lemma_extends_trans(st.html, sti.html, st1.html);
                }
            }
        }
    }
}

/// The permissive head scan: anything it emits begins with the document
/// prefix, and an already-emitted prefix is preserved.
proof fn lemma_head_scan_extends(tokens: Seq<Seq<char>>, st: PState)
    requires
        0 <= st.pos <= tokens.len(),
    ensures
        spec_head_scan(tokens, st) matches Ok(st1) ==> html_extends(st.html, st1.html) && 0
            <= st1.pos <= tokens.len(),
    decreases tokens.len() - st.pos,
{
    let cur = cur_tok(tokens, st.pos);
    if cur.len() == 0 || tok_eq_ci(cur, "#OIC"@) {
        lemma_extends_refl(st.html);
    } else if tok_eq_ci(cur, "#GIMMEH"@) {
        lemma_title_extends(tokens, st);
        lemma_title_mono(tokens, st);
        if let Ok(sti) = spec_title(tokens, st) {
            if st.pos < sti.pos && sti.pos <= tokens.len() {
                lemma_head_scan_extends(tokens, sti);
                if let Ok(st1) = spec_head_scan(tokens, sti) {
                    lemma_extends_trans(st.html, sti.html, st1.html);
                }
            }
        }
    } else {
        lemma_head_scan_extends(tokens, PState { pos: st.pos + 1, ..st });
    }
}

/// The document prefix a title opens with.
pub open spec fn title_prefix(h: Seq<char>) -> bool {
    h.len() >= "<html><head><title>"@.len() && h.subrange(0, "<html><head><title>"@.len() as int)
        == "<html><head><title>"@
}

/// Scanning a head from an empty buffer leaves it empty or opening with the
/// document prefix.
proof fn lemma_head_scan_prefix(tokens: Seq<Seq<char>>, st: PState)
    requires
        0 <= st.pos <= tokens.len(),
        st.html.len() == 0,
    ensures
        spec_head_scan(tokens, st) matches Ok(st1) ==> st1.html.len() == 0 || title_prefix(
            st1.html,
        ),
    decreases tokens.len() - st.pos,
{
    let cur = cur_tok(tokens, st.pos);
    if cur.len() == 0 || tok_eq_ci(cur, "#OIC"@) {
    } else if tok_eq_ci(cur, "#GIMMEH"@) {
        if let Ok(sti) = spec_title(tokens, st) {
            assert(title_prefix(sti.html)) by {
                assert(sti.html.subrange(0, "<html><head><title>"@.len() as int)
                    =~= "<html><head><title>"@);
            }
            if st.pos < sti.pos && sti.pos <= tokens.len() {
                lemma_head_scan_extends(tokens, sti);
                if let Ok(st1) = spec_head_scan(tokens, sti) {
                    assert(title_prefix(st1.html)) by {
                        assert(st1.html.subrange(0, "<html><head><title>"@.len() as int)
                            =~= sti.html.subrange(0, "<html><head><title>"@.len() as int));
                    }
                }
            }
        }
    } else {
        lemma_head_scan_prefix(tokens, PState { pos: st.pos + 1, ..st });
    }
}

/// The HTML buffer is append-only: a whole program run only ever grows it,
/// carrying everything already in it unchanged as a prefix.
pub proof fn lemma_program_appends_only(tokens: Seq<Seq<char>>, st: PState)
    requires
        0 <= st.pos <= tokens.len(),
        spec_program(tokens, st) is Ok,
    ensures
        html_extends(st.html, spec_program(tokens, st)->Ok_0.html),
{
    keyword_lengths();
    let sa = spec_match(tokens, st, "#HAI"@)->Ok_0;
    let sb = spec_comments(tokens, sa)->Ok_0;
    let sc = spec_head(tokens, sb)->Ok_0;
    let sbi = spec_body_items(tokens, sc)->Ok_0;
    let sd = spec_body(tokens, sc)->Ok_0;
    lemma_comments_html_eq(tokens, sa);
    lemma_extends_refl(st.html);
    assert(html_extends(st.html, sc.html) && 0 <= sc.pos <= tokens.len()) by {
        if tok_eq_ci(cur_tok(tokens, sb.pos), "#MAEK"@) {
            lemma_match_mono(tokens, sb, "#MAEK"@);
            if let Ok(s1) = spec_match(tokens, sb, "#MAEK"@) {
                lemma_match_mono(tokens, s1, "HEAD"@);
                if let Ok(s2) = spec_match(tokens, s1, "HEAD"@) {
                    lemma_head_scan_extends(tokens, s2);
                    if let Ok(s3) = spec_head_scan(tokens, s2) {
                        lemma_match_mono(tokens, s3, "#OIC"@);
                    }
                }
            }
        }
    }
    lemma_body_items_extends(tokens, sc);
    lemma_extends_trans(st.html, sc.html, sbi.html);
    lemma_extends_append(sbi.html, "</body></html>"@);
    lemma_extends_trans(st.html, sbi.html, sd.html);
}

/// When a program parsed from an empty buffer has its head emit anything at
/// all (a title was present), the whole output starts with
/// `<html><head><title>`.
pub proof fn lemma_program_title_prefix(tokens: Seq<Seq<char>>, st: PState)
    requires
        0 <= st.pos <= tokens.len(),
        st.html.len() == 0,
        spec_program(tokens, st) is Ok,
        (spec_head(tokens, spec_comments(tokens, spec_match(tokens, st, "#HAI"@)->Ok_0)->Ok_0)->Ok_0).html.len()
            > 0,
    ensures
        title_prefix(spec_program(tokens, st)->Ok_0.html),
{
    keyword_lengths();
    let sa = spec_match(tokens, st, "#HAI"@)->Ok_0;
    let sb = spec_comments(tokens, sa)->Ok_0;
    let sc = spec_head(tokens, sb)->Ok_0;
    lemma_comments_html_eq(tokens, sa);
    assert(sb.html.len() == 0);
    // the head took its `#MAEK` branch, else its buffer would still be empty
    assert(title_prefix(sc.html)) by {
        if tok_eq_ci(cur_tok(tokens, sb.pos), "#MAEK"@) {
            if let Ok(s1) = spec_match(tokens, sb, "#MAEK"@) {
                if let Ok(s2) = spec_match(tokens, s1, "HEAD"@) {
                    lemma_head_scan_prefix(tokens, s2);
                }
            }
        }
    }
    let sd = spec_body(tokens, sc)->Ok_0;
    let sbi = spec_body_items(tokens, sc)->Ok_0;
    lemma_body_items_extends(tokens, sc);
    lemma_extends_append(sbi.html, "</body></html>"@);
    lemma_extends_trans(sc.html, sbi.html, sd.html);
    let h = spec_program(tokens, st)->Ok_0.html;
    assert(h == sd.html);
    assert(h.subrange(0, "<html><head><title>"@.len() as int) =~= sc.html.subrange(
        0,
        "<html><head><title>"@.len() as int,
    ));
}

} // verus!
