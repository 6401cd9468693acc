//! Proof library: bounds of the scanning functions, algebra of the joining
//! functions and of the symbol table, and cursor-advance facts for each
//! production. The executable code's loop proofs lean on these.
use vstd::prelude::*;
use crate::model::cur_tok;
use crate::model::first_match;
use crate::model::flush;
use crate::model::lex;
use crate::model::is_url_char;
use crate::model::is_ws_char;
use crate::model::join_spaced;
use crate::model::join_trailing;
use crate::model::next_pos;
use crate::model::scan_end;
use crate::model::spec_audio;
use crate::model::spec_bold;
use crate::model::spec_comment;
use crate::model::spec_inner_paragraph;
use crate::model::spec_inner_text;
use crate::model::spec_italics;
use crate::model::spec_match;
use crate::model::spec_newline;
use crate::model::spec_paragraph;
use crate::model::spec_text;
use crate::model::spec_title;
use crate::model::spec_var_define;
use crate::model::spec_var_use;
use crate::model::spec_video;
use crate::model::tok_eq_ci;
use crate::model::vars_map;
use crate::model::PState;

verus! {

// ---------------------------------------------------------------------------
// Keyword literal facts
// ---------------------------------------------------------------------------

/// Lengths of the keyword literals and of the space separator.
pub proof fn keyword_lengths()
    ensures
        "#HAI"@.len() == 4,
        "#KTHXBYE"@.len() == 8,
        "#OBTW"@.len() == 5,
        "#TLDR"@.len() == 5,
        "#MAEK"@.len() == 5,
        "#OIC"@.len() == 4,
        "#GIMMEH"@.len() == 7,
        "#MKAY"@.len() == 5,
        "#LEMME"@.len() == 6,
        "#I"@.len() == 2,
        "HAZ"@.len() == 3,
        "#IT"@.len() == 3,
        "IZ"@.len() == 2,
        "HEAD"@.len() == 4,
        "TITLE"@.len() == 5,
        "BOLD"@.len() == 4,
        "ITALICS"@.len() == 7,
        "NEWLINE"@.len() == 7,
        "SOUNDZ"@.len() == 6,
        "VIDZ"@.len() == 4,
        "PARAGRAF"@.len() == 8,
        "LIST"@.len() == 4,
        "ITEM"@.len() == 4,
        "SEE"@.len() == 3,
        " "@.len() == 1,
        " "@[0] == ' ',
{
    reveal_strlit("#HAI");
    reveal_strlit("#KTHXBYE");
    reveal_strlit("#OBTW");
    reveal_strlit("#TLDR");
    reveal_strlit("#MAEK");
    reveal_strlit("#OIC");
    reveal_strlit("#GIMMEH");
    reveal_strlit("#MKAY");
    reveal_strlit("#LEMME");
    reveal_strlit("#I");
    reveal_strlit("HAZ");
    reveal_strlit("#IT");
    reveal_strlit("IZ");
    reveal_strlit("HEAD");
    reveal_strlit("TITLE");
    reveal_strlit("BOLD");
    reveal_strlit("ITALICS");
    reveal_strlit("NEWLINE");
    reveal_strlit("SOUNDZ");
    reveal_strlit("VIDZ");
    reveal_strlit("PARAGRAF");
    reveal_strlit("LIST");
    reveal_strlit("ITEM");
    reveal_strlit("SEE");
    reveal_strlit(" ");
}

// ---------------------------------------------------------------------------
// Scanning
// ---------------------------------------------------------------------------

/// `scan_end` stays within bounds, covers a URL-safe run, and stops at the
/// first character outside it.
pub proof fn lemma_scan_end(chars: Seq<char>, i: int)
    requires
        0 <= i <= chars.len(),
    ensures
        i <= scan_end(chars, i) <= chars.len(),
        forall|k: int| i <= k < scan_end(chars, i) ==> is_url_char(#[trigger] chars[k]),
        scan_end(chars, i) < chars.len() ==> !is_url_char(chars[scan_end(chars, i)]),
    decreases chars.len() - i,
{
    if i < chars.len() && is_url_char(chars[i]) {
        lemma_scan_end(chars, i + 1);
    }
}

/// `first_match` stays within bounds, points at a match if there is one, and
/// nothing before it matches.
pub proof fn lemma_first_match(tokens: Seq<Seq<char>>, from: int, kw: Seq<char>)
    requires
        0 <= from <= tokens.len(),
    ensures
        from <= first_match(tokens, from, kw) <= tokens.len(),
        first_match(tokens, from, kw) < tokens.len() ==> tok_eq_ci(
            tokens[first_match(tokens, from, kw)],
            kw,
        ),
        forall|k: int|
            from <= k < first_match(tokens, from, kw) ==> !tok_eq_ci(#[trigger] tokens[k], kw),
    decreases tokens.len() - from,
{
    if from < tokens.len() && !tok_eq_ci(tokens[from], kw) {
        lemma_first_match(tokens, from + 1, kw);
    }
}

/// Every token a successful lexing pass produces is non-empty.
pub proof fn lemma_lex_tokens_nonempty(
    chars: Seq<char>,
    i: int,
    pending: Seq<char>,
    acc: Seq<Seq<char>>,
)
    requires
        0 <= i <= chars.len(),
        forall|k: int| 0 <= k < acc.len() ==> (#[trigger] acc[k]).len() != 0,
    ensures
        lex(chars, i, pending, acc) matches Ok(ts) ==> forall|k: int|
            0 <= k < ts.len() ==> (#[trigger] ts[k]).len() != 0,
    decreases chars.len() - i,
{
    if i >= chars.len() {
    } else {
        let c = chars[i];
        if is_ws_char(c) {
            lemma_lex_tokens_nonempty(chars, i + 1, Seq::empty(), flush(acc, pending));
        } else if c == '#' {
            lemma_scan_end(chars, i + 1);
            let j = scan_end(chars, i + 1);
            let tok = chars.subrange(i, j);
            assert(tok.len() == j - i >= 1);
            lemma_lex_tokens_nonempty(chars, j, Seq::empty(), flush(acc, pending).push(tok));
        } else {
            lemma_lex_tokens_nonempty(chars, i + 1, pending.push(c), acc);
        }
    }
}

// ---------------------------------------------------------------------------
// Joining
// ---------------------------------------------------------------------------

/// Appending one token at the right of a space-joined text.
pub proof fn lemma_join_spaced_push(s: Seq<Seq<char>>, t: Seq<char>)
    ensures
        join_spaced(s.push(t)) == if s.len() == 0 {
            t
        } else {
            join_spaced(s) + " "@ + t
        },
    decreases s.len(),
{
    if s.len() == 0 {
        assert(s.push(t)[0] == t);
    } else if s.len() == 1 {
        assert(s.push(t).drop_first() =~= s.drop_first().push(t));
        assert(s.push(t)[0] == s[0]);
        assert(s.drop_first().push(t)[0] == t);
        assert(join_spaced(s.drop_first().push(t)) == t);
        assert(join_spaced(s.push(t)) == s[0] + " "@ + t);
    } else {
        lemma_join_spaced_push(s.drop_first(), t);
        assert(s.push(t).drop_first() =~= s.drop_first().push(t));
        assert(s[0] + " "@ + (join_spaced(s.drop_first()) + " "@ + t) =~= (s[0] + " "@
            + join_spaced(s.drop_first())) + " "@ + t);
    }
}

/// Appending one token at the right of a trailing-space text.
pub proof fn lemma_join_trailing_push(s: Seq<Seq<char>>, t: Seq<char>)
    ensures
        join_trailing(s.push(t)) == join_trailing(s) + t + " "@,
    decreases s.len(),
{
    if s.len() == 0 {
        assert(s.push(t)[0] == t);
        assert(s.push(t).drop_first() =~= Seq::<Seq<char>>::empty());
        assert(t + " "@ + join_trailing(Seq::<Seq<char>>::empty()) =~= t + " "@);
        assert(join_trailing(s) + t + " "@ =~= t + " "@);
    } else {
        lemma_join_trailing_push(s.drop_first(), t);
        assert(s.push(t).drop_first() =~= s.drop_first().push(t));
        assert(s[0] + " "@ + (join_trailing(s.drop_first()) + t + " "@) =~= (s[0] + " "@
            + join_trailing(s.drop_first())) + t + " "@);
    }
}

// ---------------------------------------------------------------------------
// Symbol table
// ---------------------------------------------------------------------------

/// Pushing one binding inserts it into the denoted table.
pub proof fn lemma_vars_map_push(pairs: Seq<(Seq<char>, Seq<char>)>, p: (Seq<char>, Seq<char>))
    ensures
        vars_map(pairs.push(p)) == vars_map(pairs).insert(p.0, p.1),
{
    assert(pairs.push(p).drop_last() =~= pairs);
    assert(pairs.push(p).last() == p);
}

/// The last binding of a name decides its value in the table.
pub proof fn lemma_vars_map_found(pairs: Seq<(Seq<char>, Seq<char>)>, i: int)
    requires
        0 <= i < pairs.len(),
        forall|k: int| i < k < pairs.len() ==> (#[trigger] pairs[k]).0 != pairs[i].0,
    ensures
        vars_map(pairs).contains_key(pairs[i].0),
        vars_map(pairs)[pairs[i].0] == pairs[i].1,
    decreases pairs.len(),
{
    if i + 1 == pairs.len() {
    } else {
        assert(pairs.drop_last()[i] == pairs[i]);
        lemma_vars_map_found(pairs.drop_last(), i);
        assert(pairs.last() == pairs[pairs.len() - 1]);
    }
}

/// A name bound nowhere is absent from the table.
pub proof fn lemma_vars_map_absent(pairs: Seq<(Seq<char>, Seq<char>)>, n: Seq<char>)
    requires
        forall|k: int| 0 <= k < pairs.len() ==> (#[trigger] pairs[k]).0 != n,
    ensures
        !vars_map(pairs).contains_key(n),
    decreases pairs.len(),
{
    if pairs.len() > 0 {
        assert(forall|k: int|
            0 <= k < pairs.drop_last().len() ==> (#[trigger] pairs.drop_last()[k]).0 != n);
        lemma_vars_map_absent(pairs.drop_last(), n);
        assert(pairs.last() == pairs[pairs.len() - 1]);
    }
}

// ---------------------------------------------------------------------------
// Cursor advance of the productions
// ---------------------------------------------------------------------------

/// A successful match on a non-empty keyword advances the cursor one step.
pub proof fn lemma_match_mono(tokens: Seq<Seq<char>>, st: PState, kw: Seq<char>)
    requires
        0 <= st.pos <= tokens.len(),
        kw.len() != 0,
    ensures
        spec_match(tokens, st, kw) matches Ok(st1) ==> st1.pos == st.pos + 1 && st.pos
            < tokens.len() && st1.vars == st.vars && st1.html == st.html,
{
    if tok_eq_ci(cur_tok(tokens, st.pos), kw) {
        assert(cur_tok(tokens, st.pos).len() == kw.len());
    }
}

/// A successful title advances the cursor.
pub proof fn lemma_title_mono(tokens: Seq<Seq<char>>, st: PState)
    requires
        0 <= st.pos <= tokens.len(),
    ensures
        spec_title(tokens, st) matches Ok(st1) ==> st.pos < st1.pos <= tokens.len(),
{
    keyword_lengths();
    lemma_match_mono(tokens, st, "#GIMMEH"@);
    if let Ok(st1) = spec_match(tokens, st, "#GIMMEH"@) {
        lemma_match_mono(tokens, st1, "TITLE"@);
        if let Ok(st2) = spec_match(tokens, st1, "TITLE"@) {
            lemma_first_match(tokens, st2.pos, "#MKAY"@);
        }
    }
}

/// A successful comment advances the cursor.
pub proof fn lemma_comment_mono(tokens: Seq<Seq<char>>, st: PState)
    requires
        0 <= st.pos <= tokens.len(),
    ensures
        spec_comment(tokens, st) matches Ok(st1) ==> st.pos < st1.pos <= tokens.len(),
{
    keyword_lengths();
    lemma_match_mono(tokens, st, "#OBTW"@);
    if let Ok(st1) = spec_match(tokens, st, "#OBTW"@) {
        lemma_first_match(tokens, st1.pos, "#TLDR"@);
    }
}

/// A successful bold run advances the cursor.
pub proof fn lemma_bold_mono(tokens: Seq<Seq<char>>, st: PState)
    requires
        0 <= st.pos <= tokens.len(),
    ensures
        spec_bold(tokens, st) matches Ok(st1) ==> st.pos < st1.pos <= tokens.len(),
{
    keyword_lengths();
    lemma_match_mono(tokens, st, "BOLD"@);
    if let Ok(st1) = spec_match(tokens, st, "BOLD"@) {
        lemma_first_match(tokens, st1.pos, "#MKAY"@);
    }
}

/// A successful italics run advances the cursor.
pub proof fn lemma_italics_mono(tokens: Seq<Seq<char>>, st: PState)
    requires
        0 <= st.pos <= tokens.len(),
    ensures
        spec_italics(tokens, st) matches Ok(st1) ==> st.pos < st1.pos <= tokens.len(),
{
    keyword_lengths();
    lemma_match_mono(tokens, st, "ITALICS"@);
    if let Ok(st1) = spec_match(tokens, st, "ITALICS"@) {
        lemma_first_match(tokens, st1.pos, "#MKAY"@);
    }
}

/// A successful newline advances the cursor.
pub proof fn lemma_newline_mono(tokens: Seq<Seq<char>>, st: PState)
    requires
        0 <= st.pos <= tokens.len(),
    ensures
        spec_newline(tokens, st) matches Ok(st1) ==> st.pos < st1.pos <= tokens.len(),
{
    keyword_lengths();
    lemma_match_mono(tokens, st, "NEWLINE"@);
}

/// A successful audio element advances the cursor.
pub proof fn lemma_audio_mono(tokens: Seq<Seq<char>>, st: PState)
    requires
        0 <= st.pos <= tokens.len(),
    ensures
        spec_audio(tokens, st) matches Ok(st1) ==> st.pos < st1.pos <= tokens.len(),
{
    keyword_lengths();
    lemma_match_mono(tokens, st, "SOUNDZ"@);
    if let Ok(st1) = spec_match(tokens, st, "SOUNDZ"@) {
        let st2 = PState { pos: next_pos(tokens, st1.pos), ..st1 };
        lemma_match_mono(tokens, st2, "#MKAY"@);
    }
}

/// A successful video element advances the cursor.
pub proof fn lemma_video_mono(tokens: Seq<Seq<char>>, st: PState)
    requires
        0 <= st.pos <= tokens.len(),
    ensures
        spec_video(tokens, st) matches Ok(st1) ==> st.pos < st1.pos <= tokens.len(),
{
    keyword_lengths();
    lemma_match_mono(tokens, st, "VIDZ"@);
    if let Ok(st1) = spec_match(tokens, st, "VIDZ"@) {
        let st2 = PState { pos: next_pos(tokens, st1.pos), ..st1 };
        lemma_match_mono(tokens, st2, "#MKAY"@);
    }
}

/// A successful variable definition advances the cursor.
pub proof fn lemma_var_define_mono(tokens: Seq<Seq<char>>, st: PState)
    requires
        0 <= st.pos <= tokens.len(),
    ensures
        spec_var_define(tokens, st) matches Ok(st1) ==> st.pos < st1.pos <= tokens.len(),
{
    keyword_lengths();
    lemma_match_mono(tokens, st, "#I"@);
    if let Ok(st1) = spec_match(tokens, st, "#I"@) {
        lemma_match_mono(tokens, st1, "HAZ"@);
        if let Ok(st2) = spec_match(tokens, st1, "HAZ"@) {
            let st3 = PState { pos: next_pos(tokens, st2.pos), ..st2 };
            lemma_match_mono(tokens, st3, "#IT"@);
            if let Ok(st4) = spec_match(tokens, st3, "#IT"@) {
                lemma_match_mono(tokens, st4, "IZ"@);
                if let Ok(st5) = spec_match(tokens, st4, "IZ"@) {
                    lemma_first_match(tokens, st5.pos, "#MKAY"@);
                }
            }
        }
    }
}

/// A successful variable use advances the cursor.
pub proof fn lemma_var_use_mono(tokens: Seq<Seq<char>>, st: PState)
    requires
        0 <= st.pos <= tokens.len(),
    ensures
        spec_var_use(tokens, st) matches Ok(st1) ==> st.pos < st1.pos <= tokens.len(),
{
    keyword_lengths();
    lemma_match_mono(tokens, st, "#LEMME"@);
    if let Ok(st1) = spec_match(tokens, st, "#LEMME"@) {
        lemma_match_mono(tokens, st1, "SEE"@);
        if let Ok(st2) = spec_match(tokens, st1, "SEE"@) {
            let st3 = PState { pos: next_pos(tokens, st2.pos), ..st2 };
            lemma_match_mono(tokens, st3, "#MKAY"@);
        }
    }
}

/// Plain text never moves the cursor backwards, and advances it whenever the
/// stream is not exhausted.
pub proof fn lemma_text_mono(tokens: Seq<Seq<char>>, st: PState)
    requires
        0 <= st.pos <= tokens.len(),
    ensures
        spec_text(tokens, st) matches Ok(st1) ==> st.pos <= st1.pos <= tokens.len(),
        st.pos < tokens.len() ==> (spec_text(tokens, st) matches Ok(st1) ==> st.pos < st1.pos),
{
}

/// An inline form never moves the cursor backwards, and advances it whenever
/// the stream is not exhausted.
pub proof fn lemma_inner_text_mono(tokens: Seq<Seq<char>>, st: PState)
    requires
        0 <= st.pos <= tokens.len(),
    ensures
        spec_inner_text(tokens, st) matches Ok(st1) ==> st.pos <= st1.pos <= tokens.len(),
        st.pos < tokens.len() ==> (spec_inner_text(tokens, st) matches Ok(st1) ==> st.pos < st1.pos),
{
    keyword_lengths();
    let cur = cur_tok(tokens, st.pos);
    if tok_eq_ci(cur, "#GIMMEH"@) {
        assert(st.pos < tokens.len());
        let st1 = PState { pos: next_pos(tokens, st.pos), ..st };
        lemma_bold_mono(tokens, st1);
        lemma_italics_mono(tokens, st1);
        lemma_newline_mono(tokens, st1);
        lemma_audio_mono(tokens, st1);
        lemma_video_mono(tokens, st1);
    } else if tok_eq_ci(cur, "#LEMME"@) {
        lemma_var_use_mono(tokens, st);
    } else if tok_eq_ci(cur, "#I"@) {
        lemma_var_define_mono(tokens, st);
    } else {
        lemma_text_mono(tokens, st);
    }
}

/// The inside of a paragraph never moves the cursor backwards.
pub proof fn lemma_inner_paragraph_mono(tokens: Seq<Seq<char>>, st: PState)
    requires
        0 <= st.pos <= tokens.len(),
    ensures
        spec_inner_paragraph(tokens, st) matches Ok(st1) ==> st.pos <= st1.pos <= tokens.len(),
    decreases tokens.len() - st.pos,
{
    let cur = cur_tok(tokens, st.pos);
    if cur.len() == 0 || tok_eq_ci(cur, "#OIC"@) {
    } else {
        assert(st.pos < tokens.len());
        lemma_inner_text_mono(tokens, st);
        if let Ok(st1) = spec_inner_text(tokens, st) {
            lemma_inner_paragraph_mono(tokens, st1);
        }
    }
}

/// A successful paragraph advances the cursor.
pub proof fn lemma_paragraph_mono(tokens: Seq<Seq<char>>, st: PState)
    requires
        0 <= st.pos <= tokens.len(),
    ensures
        spec_paragraph(tokens, st) matches Ok(st1) ==> st.pos < st1.pos <= tokens.len(),
{
    keyword_lengths();
    lemma_match_mono(tokens, st, "#MAEK"@);
    if let Ok(st1) = spec_match(tokens, st, "#MAEK"@) {
        lemma_match_mono(tokens, st1, "PARAGRAF"@);
        if let Ok(st2) = spec_match(tokens, st1, "PARAGRAF"@) {
            let st2b = PState { html: st2.html + "<p>"@, ..st2 };
            lemma_inner_paragraph_mono(tokens, st2b);
            if let Ok(st3) = spec_inner_paragraph(tokens, st2b) {
                lemma_match_mono(tokens, PState { html: st3.html + "</p>\n"@, ..st3 }, "#OIC"@);
            }
        }
    }
}

} // verus!
