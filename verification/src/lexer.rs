//! The lexical analyzer: one left-to-right pass that turns source text into
//! the token sequence that `model::lex` describes.
use vstd::prelude::*;
use vstd::string::StrSliceExecFns;
use vstd::string::StringExecFns;
use crate::errors::CompileError;
use crate::model::ErrSpec;
use crate::lemmas::lemma_scan_end;
use crate::model::flush;
use crate::model::is_keyword;
use crate::model::is_ws_char;
use crate::model::lex;
use crate::model::scan_end;
use crate::model::spec_tokenize;
use crate::model::valid_special;
use crate::model::views_of;
use crate::util::push_char;
use crate::util::starts_http;
use crate::util::str_eq_ci;
use crate::util::url_char;

verus! {

/// The lexer: the characters of the source, a scanning position, and the
/// plain lexeme currently being accumulated.
pub struct LolLexer {
    pub chars: Vec<char>,
    pub position: usize,
    pub current_lexeme: String,
}

impl LolLexer {
    /// A fresh lexer with nothing loaded.
    pub fn new() -> (l: LolLexer)
        ensures
            l.chars@ == Seq::<char>::empty(),
            l.position == 0,
            l.current_lexeme@ == Seq::<char>::empty(),
    {
        LolLexer { chars: Vec::new(), position: 0, current_lexeme: String::new() }
    }

    /// Whether the lexer treats this character as whitespace.
    fn is_whitespace(c: char) -> (r: bool)
        ensures
            r == is_ws_char(c),
    {
        c == ' ' || c == '\t' || c == '\n' || c == '\r'
    }

    /// Whether this character opens a special token.
    fn is_special(c: char) -> (r: bool)
        ensures
            r == (c == '#'),
    {
        c == '#'
    }

    /// The next character of the loaded source, advancing past it.
    pub fn get_char(&mut self) -> (r: Option<char>)
        ensures
            final(self).chars == old(self).chars,
            final(self).current_lexeme == old(self).current_lexeme,
            if old(self).position < old(self).chars@.len() {
                r == Some(old(self).chars@[old(self).position as int]) && final(self).position
                    == old(self).position + 1
            } else {
                r is None && final(self).position == old(self).position
            },
    {
        if self.position < self.chars.len() {
            let ch = self.chars[self.position];
            self.position = self.position + 1;
            Some(ch)
        } else {
            None
        }
    }

    /// Appends one character to the lexeme being accumulated.
    pub fn add_char(&mut self, c: char)
        ensures
            final(self).chars == old(self).chars,
            final(self).position == old(self).position,
            final(self).current_lexeme@ == old(self).current_lexeme@.push(c),
    {
        push_char(&mut self.current_lexeme, c);
    }

    /// Whether the string is one of the fixed keywords, matched
    /// case-insensitively.
    pub fn lookup(&self, s: &str) -> (r: bool)
        ensures
            r == is_keyword(s@),
    {
        str_eq_ci(s, "#HAI") || str_eq_ci(s, "#KTHXBYE") || str_eq_ci(s, "#OBTW") || str_eq_ci(
            s,
            "#TLDR",
        ) || str_eq_ci(s, "#MAEK") || str_eq_ci(s, "#OIC") || str_eq_ci(s, "#GIMMEH") || str_eq_ci(
            s,
            "#MKAY",
        ) || str_eq_ci(s, "#LEMME") || str_eq_ci(s, "#I") || str_eq_ci(s, "HAZ") || str_eq_ci(
            s,
            "#IT",
        ) || str_eq_ci(s, "IZ") || str_eq_ci(s, "HEAD") || str_eq_ci(s, "TITLE") || str_eq_ci(
            s,
            "BOLD",
        ) || str_eq_ci(s, "ITALICS") || str_eq_ci(s, "NEWLINE") || str_eq_ci(s, "SOUNDZ")
            || str_eq_ci(s, "VIDZ") || str_eq_ci(s, "PARAGRAF") || str_eq_ci(s, "LIST")
            || str_eq_ci(s, "ITEM") || str_eq_ci(s, "SEE")
    }

    /// Tokenizes the source: plain lexemes are split on whitespace, `#` opens
    /// a special token that must be a keyword or begin with `http`, and the
    /// first invalid special token is the (fatal) lexical error. The result
    /// depends on the source alone: the lexer's own state is reset first.
    pub fn tokenize(&mut self, source: &str) -> (r: Result<Vec<String>, CompileError>)
        ensures
            match spec_tokenize(source@) {
                Ok(ts) => r matches Ok(v) && views_of(v@) == ts,
                Err(e) => r matches Err(err) && err@ == e,
            },
    {
        self.chars = Vec::new();
        self.position = 0;
        self.current_lexeme = String::new();
        let ghost pend0 = self.current_lexeme@;
        let n = source.unicode_len();
        let mut k: usize = 0;
        while k < n
            invariant
                k <= n,
                n == source@.len(),
                self.chars@ == source@.subrange(0, k as int),
                self.position == 0,
                self.current_lexeme@ == pend0,
            decreases n - k,
        {
            self.chars.push(source.get_char(k));
            assert(self.chars@ =~= source@.subrange(0, k + 1 as int));
            k = k + 1;
        }
        assert(self.chars@ =~= source@);
        let ghost chars0 = source@;

        let mut tokens: Vec<String> = Vec::new();
        assert(views_of(tokens@) =~= Seq::<Seq<char>>::empty());
        while self.position < self.chars.len()
            invariant
                chars0 == source@,
                pend0 == Seq::<char>::empty(),
                self.chars@ == chars0,
                self.position <= chars0.len(),
                lex(chars0, 0, pend0, Seq::empty()) == lex(
                    chars0,
                    self.position as int,
                    self.current_lexeme@,
                    views_of(tokens@),
                ),
            decreases chars0.len() - self.position,
        {
            let ghost i = self.position as int;
            let ghost pending = self.current_lexeme@;
            let ghost acc = views_of(tokens@);
            let c = self.get_char().unwrap();
            if Self::is_whitespace(c) {
                if !self.current_lexeme.as_str().is_empty() {
                    tokens.push(self.current_lexeme.clone());
                    self.current_lexeme = String::new();
                }
                proof {
                    assert(self.current_lexeme@ =~= Seq::<char>::empty());
                    assert(views_of(tokens@) =~= flush(acc, pending));
                    assert(lex(chars0, i, pending, acc) == lex(
                        chars0,
                        i + 1,
                        Seq::empty(),
                        flush(acc, pending),
                    ));
                }
            } else if Self::is_special(c) {
                if !self.current_lexeme.as_str().is_empty() {
                    tokens.push(self.current_lexeme.clone());
                    self.current_lexeme = String::new();
                }
                proof {
                    assert(self.current_lexeme@ =~= Seq::<char>::empty());
                    assert(views_of(tokens@) =~= flush(acc, pending));
                }
                let ghost flushed = views_of(tokens@);

                let mut token = String::new();
                push_char(&mut token, c);
                assert(token@ =~= chars0.subrange(i, i + 1));
                while self.position < self.chars.len() && url_char(self.chars[self.position])
                    invariant
                        self.chars@ == chars0,
                        0 <= i,
                        i < self.position <= chars0.len(),
                        token@ == chars0.subrange(i, self.position as int),
                        scan_end(chars0, i + 1) == scan_end(chars0, self.position as int),
                        self.current_lexeme@.len() == 0,
                        views_of(tokens@) == flushed,
                    decreases chars0.len() - self.position,
                {
                    let nc = self.chars[self.position];
                    push_char(&mut token, nc);
                    self.position = self.position + 1;
                    assert(token@ =~= chars0.subrange(i, self.position as int));
                }
                proof {
                    lemma_scan_end(chars0, i + 1);
                    assert(scan_end(chars0, self.position as int) == self.position as int);
                }
                let ghost j = self.position as int;
                assert(j == scan_end(chars0, i + 1));
                assert(token@ == chars0.subrange(i, j));
                if !(self.lookup(token.as_str()) || starts_http(token.as_str())) {
                    proof {
                        assert(!valid_special(chars0.subrange(i, j)));
                        assert(lex(chars0, i, pending, acc) == Result::<Seq<Seq<char>>, ErrSpec>::Err(
                            ErrSpec::Lexical(chars0.subrange(i, j)),
                        ));
                    }
                    return Err(CompileError::Lexical(token));
                }
                let ghost tok = token@;
                tokens.push(token);
                proof {
                    assert(views_of(tokens@) =~= flushed.push(tok));
                    assert(lex(chars0, i, pending, acc) == lex(
                        chars0,
                        j,
                        Seq::empty(),
                        flush(acc, pending).push(tok),
                    ));
                    assert(self.current_lexeme@ =~= Seq::<char>::empty());
                }
            } else {
                self.add_char(c);
                proof {
                    assert(self.current_lexeme@ == pending.push(c));
                    assert(lex(chars0, i, pending, acc) == lex(chars0, i + 1, pending.push(c), acc));
                }
            }
        }
        assert(self.position == chars0.len());
        let ghost accf = views_of(tokens@);
        let ghost pendf = self.current_lexeme@;
        if !self.current_lexeme.as_str().is_empty() {
            tokens.push(self.current_lexeme.clone());
        }
        assert(views_of(tokens@) =~= flush(accf, pendf));
        Ok(tokens)
    }
}

} // verus!
