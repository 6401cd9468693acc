//! The compiler: the token cursor, the symbol table, the HTML buffer, and one
//! executable procedure per grammar production, each proved to agree with its
//! specification in `model`.
use vstd::prelude::*;
use vstd::string::StrSliceExecFns;
use vstd::string::StringExecFns;
use vstd::string::StringExecFnsIsAscii;
use crate::errors::CompileError;
use crate::lemmas::keyword_lengths;
use crate::lemmas::lemma_comment_mono;
use crate::lemmas::lemma_first_match;
use crate::lemmas::lemma_inner_text_mono;
use crate::lemmas::lemma_lex_tokens_nonempty;
use crate::lemmas::lemma_match_mono;
use crate::lemmas::lemma_paragraph_mono;
use crate::lemmas::lemma_text_mono;
use crate::lemmas::lemma_title_mono;
use crate::lemmas::lemma_var_define_mono;
use crate::lemmas::lemma_var_use_mono;
use crate::lemmas::lemma_join_spaced_push;
use crate::lemmas::lemma_join_trailing_push;
use crate::lemmas::lemma_vars_map_absent;
use crate::lemmas::lemma_vars_map_found;
use crate::lemmas::lemma_vars_map_push;
use crate::lexer::LolLexer;
use crate::model::cur_tok;
use crate::model::first_match;
use crate::model::join_spaced;
use crate::model::join_trailing;
use crate::model::next_pos;
use crate::model::spec_audio;
use crate::model::spec_bold;
use crate::model::spec_italics;
use crate::model::spec_body;
use crate::model::spec_body_items;
use crate::model::spec_comment;
use crate::model::spec_comments;
use crate::model::spec_compile;
use crate::model::spec_head;
use crate::model::spec_head_scan;
use crate::model::spec_inner_paragraph;
use crate::model::spec_inner_text;
use crate::model::spec_list;
use crate::model::spec_list_items;
use crate::model::spec_match;
use crate::model::spec_paragraph;
use crate::model::spec_program;
use crate::model::spec_title;
use crate::model::spec_tokenize;
use crate::model::spec_newline;
use crate::model::spec_text;
use crate::model::spec_var_define;
use crate::model::spec_var_use;
use crate::model::spec_video;
use crate::model::vars_map;
use crate::model::views_of;
use crate::model::ErrSpec;
use crate::model::PState;
use crate::util::punct;
use crate::util::str_eq;
use crate::util::str_eq_ci;

verus! {

/// The compiler: the token sequence of one lexing pass, the cursor over it
/// (an index and the current token), the flat symbol table, and the
/// append-only HTML output buffer.
pub struct LolCompiler {
    pub tokens: Vec<String>,
    pub current_index: usize,
    pub current: String,
    pub variables: Vec<(String, String)>,
    pub html_output: String,
}

impl LolCompiler {
    /// The texts of the token sequence.
    pub open spec fn tok_seq(&self) -> Seq<Seq<char>> {
        views_of(self.tokens@)
    }

    /// The symbol table's bindings, oldest first.
    pub open spec fn pairs(&self) -> Seq<(Seq<char>, Seq<char>)> {
        Seq::new(self.variables@.len(), |i: int| (self.variables@[i].0@, self.variables@[i].1@))
    }

    /// The symbol table as a map; later bindings win.
    pub open spec fn vars_view(&self) -> Map<Seq<char>, Seq<char>> {
        vars_map(self.pairs())
    }

    /// The abstract cursor position: the current index while a token is held,
    /// the length of the stream once it is exhausted.
    pub open spec fn spec_pos(&self) -> int {
        if self.current@.len() == 0 {
            self.tokens@.len() as int
        } else {
            self.current_index as int
        }
    }

    /// The parser state this compiler stands for.
    pub open spec fn pstate(&self) -> PState {
        PState { pos: self.spec_pos(), vars: self.vars_view(), html: self.html_output@ }
    }

    /// Cursor consistency: tokens are never empty, the held token is the one
    /// at the current index, and an exhausted cursor rests at the last index.
    pub open spec fn wf(&self) -> bool {
        &&& forall|i: int| 0 <= i < self.tokens@.len() ==> (#[trigger] self.tokens@[i])@.len() != 0
        &&& (self.current@.len() != 0 ==> self.current_index < self.tokens@.len()
            && self.current@ == self.tokens@[self.current_index as int]@)
        &&& (self.current@.len() == 0 ==> self.current_index + 1 >= self.tokens@.len())
        &&& (self.tokens@.len() == 0 ==> self.current_index == 0)
        &&& (self.tokens@.len() > 0 ==> self.current_index < self.tokens@.len())
    }

    /// A fresh compiler: no tokens, no variables, an empty output buffer.
    pub fn new() -> (c: LolCompiler)
        ensures
            c.wf(),
            c.tok_seq() == Seq::<Seq<char>>::empty(),
            c.pstate() == (PState {
                pos: 0,
                vars: Map::<Seq<char>, Seq<char>>::empty(),
                html: Seq::<char>::empty(),
            }),
    {
        let c = LolCompiler {
            tokens: Vec::new(),
            current_index: 0,
            current: String::new(),
            variables: Vec::new(),
            html_output: String::new(),
        };
        proof {
            assert(c.tok_seq() =~= Seq::<Seq<char>>::empty());
            assert(c.pairs() =~= Seq::<(Seq<char>, Seq<char>)>::empty());
            assert(c.pstate() =~= (PState {
                pos: 0,
                vars: Map::<Seq<char>, Seq<char>>::empty(),
                html: Seq::<char>::empty(),
            }));
        }
        c
    }

    /// The current token, without advancing.
    pub fn current_token(&self) -> (t: String)
        ensures
            t@ == self.current@,
    {
        self.current.clone()
    }

    /// Overwrites the held token without moving the cursor. Consistency with
    /// the index is the caller's to keep.
    pub fn set_current_token(&mut self, tok: String)
        ensures
            final(self).current == tok,
            final(self).tokens == old(self).tokens,
            final(self).current_index == old(self).current_index,
            final(self).variables == old(self).variables,
            final(self).html_output == old(self).html_output,
    {
        self.current = tok;
    }

    /// Appends content to the HTML output buffer.
    pub fn write_html(&mut self, content: &str)
        ensures
            final(self).html_output@ == old(self).html_output@ + content@,
            final(self).tokens == old(self).tokens,
            final(self).current_index == old(self).current_index,
            final(self).current == old(self).current,
            final(self).variables == old(self).variables,
    {
        self.html_output.append(content);
    }

    /// The HTML produced so far.
    pub fn html(&self) -> (r: &str)
        ensures
            r@ == self.html_output@,
    {
        self.html_output.as_str()
    }

    /// Advances the cursor and returns the new current token: the empty token
    /// once the stream is exhausted, and from then on.
    pub fn next_token(&mut self) -> (t: String)
        requires
            old(self).wf(),
        ensures
            final(self).wf(),
            final(self).tokens == old(self).tokens,
            final(self).variables == old(self).variables,
            final(self).html_output == old(self).html_output,
            final(self).spec_pos() == next_pos(old(self).tok_seq(), old(self).spec_pos()),
            t@ == cur_tok(final(self).tok_seq(), final(self).spec_pos()),
    {
        let n = self.tokens.len();
        if self.current_index + 1 < n {
            self.current_index = self.current_index + 1;
            self.current = self.tokens[self.current_index].clone();
            assert(self.current@ == self.tokens@[self.current_index as int]@);
            assert(self.current@.len() != 0);
        } else {
            self.current = String::new();
        }
        proof {
            lemma_cur_tok(self);
        }
        self.current.clone()
    }

    /// Match-and-advance: the current token must equal `expected` up to ASCII
    /// case; a mismatch is the fatal error naming both.
    pub fn match_token(&mut self, expected: &str) -> (r: Result<(), CompileError>)
        requires
            old(self).wf(),
        ensures
            final(self).tokens == old(self).tokens,
            final(self).variables == old(self).variables,
            final(self).html_output == old(self).html_output,
            match spec_match(old(self).tok_seq(), old(self).pstate(), expected@) {
                Ok(st) => r is Ok && final(self).wf() && final(self).pstate() == st,
                Err(e) => (r matches Err(err) && err@ == e) && *final(self) == *old(self),
            },
    {
        proof {
            lemma_cur_tok(self);
        }
        if str_eq_ci(self.current.as_str(), expected) {
            self.next_token();
            proof {
                assert(self.pstate() =~= (PState {
                    pos: next_pos(old(self).tok_seq(), old(self).spec_pos()),
                    ..old(self).pstate()
                }));
            }
            Ok(())
        } else {
            Err(
                CompileError::Mismatch {
                    expected: expected.to_owned(),
                    found: self.current_token(),
                },
            )
        }
    }
    /// Looks the name up in the symbol table; the latest binding wins.
    fn lookup_variable(&self, name: &str) -> (r: Option<String>)
        ensures
            match r {
                Some(v) => self.vars_view().contains_key(name@) && v@ == self.vars_view()[name@],
                None => !self.vars_view().contains_key(name@),
            },
    {
        let mut i = self.variables.len();
        while i > 0
            invariant
                i <= self.variables@.len(),
                forall|k: int|
                    i <= k < self.variables@.len() ==> (#[trigger] self.pairs()[k]).0 != name@,
            decreases i,
        {
            i = i - 1;
            if str_eq(self.variables[i].0.as_str(), name) {
                proof {
                    assert(self.pairs()[i as int].0 == name@);
                    lemma_vars_map_found(self.pairs(), i as int);
                }
                return Some(self.variables[i].1.clone());
            }
            assert(self.pairs()[i as int].0 != name@);
        }
        proof {
            lemma_vars_map_absent(self.pairs(), name@);
        }
        None
    }

    /// `PlainText := TEXT`: emits the token, bare for punctuation and with
    /// one trailing space otherwise; a `#`-initial or non-ASCII token is the
    /// fatal text error.
    pub fn parse_text(&mut self) -> (r: Result<(), CompileError>)
        requires
            old(self).wf(),
        ensures
            final(self).tok_seq() == old(self).tok_seq(),
            match spec_text(old(self).tok_seq(), old(self).pstate()) {
                Ok(st) => r is Ok && final(self).wf() && final(self).pstate() == st,
                Err(e) => (r matches Err(err) && err@ == e) && *final(self) == *old(self),
            },
    {
        proof {
            lemma_cur_tok(self);
        }
        let token = self.current_token();
        let is_hash = token.as_str().unicode_len() > 0 && token.as_str().get_char(0) == '#';
        if is_hash || !token.as_str().is_ascii() {
            return Err(CompileError::InvalidText(token));
        }
        if punct(token.as_str()) {
            self.html_output.append(token.as_str());
        } else {
            self.html_output.append(token.as_str());
            self.html_output.append(" ");
            proof {
                assert(self.html_output@ =~= old(self).html_output@ + (token@ + " "@));
            }
        }
        self.next_token();
        proof {
            assert(self.pstate() =~= spec_text(old(self).tok_seq(), old(self).pstate())->Ok_0);
        }
        Ok(())
    }

    /// `Newline := "NEWLINE"`, emitting a line break.
    pub fn parse_newline(&mut self) -> (r: Result<(), CompileError>)
        requires
            old(self).wf(),
        ensures
            final(self).tok_seq() == old(self).tok_seq(),
            match spec_newline(old(self).tok_seq(), old(self).pstate()) {
                Ok(st) => r is Ok && final(self).wf() && final(self).pstate() == st,
                Err(e) => (r matches Err(err) && err@ == e) && *final(self) == *old(self),
            },
    {
        match self.match_token("NEWLINE") {
            Err(e) => {
                return Err(e);
            },
            Ok(_) => {},
        }
        self.html_output.append("<br/>\n");
        proof {
            assert(self.pstate() =~= spec_newline(old(self).tok_seq(), old(self).pstate())->Ok_0);
        }
        Ok(())
    }

    /// `Bold := "BOLD" {TEXT} "#MKAY"`, each inner token followed by one
    /// space, wrapped in `<b>`.
    #[verifier::loop_isolation(false)]
    pub fn parse_bold(&mut self) -> (r: Result<(), CompileError>)
        requires
            old(self).wf(),
        ensures
            final(self).tok_seq() == old(self).tok_seq(),
            match spec_bold(old(self).tok_seq(), old(self).pstate()) {
                Ok(st) => r is Ok && final(self).wf() && final(self).pstate() == st,
                Err(e) => (r matches Err(err) && err@ == e) && final(self).variables == old(
                    self,
                ).variables && (*final(self) == *old(self) || final(self).html_output@ == old(
                    self,
                ).html_output@ + "<b>"@ + join_trailing(
                    old(self).tok_seq().subrange(
                        old(self).spec_pos() + 1,
                        old(self).tok_seq().len() as int,
                    ),
                )),
            },
    {
        match self.match_token("BOLD") {
            Err(e) => {
                return Err(e);
            },
            Ok(_) => {},
        }
        let ghost toks = self.tok_seq();
        let ghost st1 = self.pstate();
        let ghost start = self.spec_pos();
        let ghost j = first_match(toks, start, "#MKAY"@);
        proof {
            keyword_lengths();
            lemma_first_match(toks, start, "#MKAY"@);
            lemma_match_mono(old(self).tok_seq(), old(self).pstate(), "BOLD"@);
            assert(start == old(self).spec_pos() + 1);
        }
        self.html_output.append("<b>");
        let ghost h1 = self.html_output@;
        while !str_eq_ci(self.current.as_str(), "#MKAY") && !self.current.as_str().is_empty()
            invariant
                self.wf(),
                self.tok_seq() == toks,
                self.vars_view() == st1.vars,
                start <= self.spec_pos() <= j,
                j == first_match(toks, self.spec_pos(), "#MKAY"@),
                self.variables == old(self).variables,
                start == old(self).spec_pos() + 1,
                self.html_output@ == h1 + join_trailing(toks.subrange(start, self.spec_pos())),
            decreases j - self.spec_pos(),
        {
            proof {
                lemma_cur_tok(self);
            }
            let ghost p = self.spec_pos();
            let tok = self.current_token();
            self.html_output.append(tok.as_str());
            self.html_output.append(" ");
            proof {
                lemma_join_trailing_push(toks.subrange(start, p), toks[p]);
                assert(toks.subrange(start, p + 1) =~= toks.subrange(start, p).push(toks[p]));
                assert(self.html_output@ =~= h1 + join_trailing(toks.subrange(start, p + 1)));
            }
            self.next_token();
            proof {
                lemma_first_match(toks, self.spec_pos(), "#MKAY"@);
            }
        }
        proof {
            lemma_cur_tok(self);
            if self.current@.len() == 0 {
                assert(j == toks.len());
            } else {
                assert(j == self.spec_pos());
            }
        }
        match self.match_token("#MKAY") {
            Err(e) => {
                proof {
                    assert(j == toks.len());
                    assert(self.html_output@ =~= old(self).html_output@ + "<b>"@
                        + join_trailing(toks.subrange(start, toks.len() as int)));
                }
                return Err(e);
            },
            Ok(_) => {},
        }
        self.html_output.append("</b>");
        proof {
            assert(self.pstate() =~= spec_bold(old(self).tok_seq(), old(self).pstate())->Ok_0);
        }
        Ok(())
    }

    /// `Italics := "ITALICS" {TEXT} "#MKAY"`, each inner token followed by
    /// one space, wrapped in `<i>`.
    #[verifier::loop_isolation(false)]
    pub fn parse_italics(&mut self) -> (r: Result<(), CompileError>)
        requires
            old(self).wf(),
        ensures
            final(self).tok_seq() == old(self).tok_seq(),
            match spec_italics(old(self).tok_seq(), old(self).pstate()) {
                Ok(st) => r is Ok && final(self).wf() && final(self).pstate() == st,
                Err(e) => (r matches Err(err) && err@ == e) && final(self).variables == old(
                    self,
                ).variables && (*final(self) == *old(self) || final(self).html_output@ == old(
                    self,
                ).html_output@ + "<i>"@ + join_trailing(
                    old(self).tok_seq().subrange(
                        old(self).spec_pos() + 1,
                        old(self).tok_seq().len() as int,
                    ),
                )),
            },
    {
        match self.match_token("ITALICS") {
            Err(e) => {
                return Err(e);
            },
            Ok(_) => {},
        }
        let ghost toks = self.tok_seq();
        let ghost st1 = self.pstate();
        let ghost start = self.spec_pos();
        let ghost j = first_match(toks, start, "#MKAY"@);
        proof {
            keyword_lengths();
            lemma_first_match(toks, start, "#MKAY"@);
            lemma_match_mono(old(self).tok_seq(), old(self).pstate(), "ITALICS"@);
            assert(start == old(self).spec_pos() + 1);
        }
        self.html_output.append("<i>");
        let ghost h1 = self.html_output@;
        while !str_eq_ci(self.current.as_str(), "#MKAY") && !self.current.as_str().is_empty()
            invariant
                self.wf(),
                self.tok_seq() == toks,
                self.vars_view() == st1.vars,
                start <= self.spec_pos() <= j,
                j == first_match(toks, self.spec_pos(), "#MKAY"@),
                self.variables == old(self).variables,
                start == old(self).spec_pos() + 1,
                self.html_output@ == h1 + join_trailing(toks.subrange(start, self.spec_pos())),
            decreases j - self.spec_pos(),
        {
            proof {
                lemma_cur_tok(self);
            }
            let ghost p = self.spec_pos();
            let tok = self.current_token();
            self.html_output.append(tok.as_str());
            self.html_output.append(" ");
            proof {
                lemma_join_trailing_push(toks.subrange(start, p), toks[p]);
                assert(toks.subrange(start, p + 1) =~= toks.subrange(start, p).push(toks[p]));
                assert(self.html_output@ =~= h1 + join_trailing(toks.subrange(start, p + 1)));
            }
            self.next_token();
            proof {
                lemma_first_match(toks, self.spec_pos(), "#MKAY"@);
            }
        }
        proof {
            lemma_cur_tok(self);
            if self.current@.len() == 0 {
                assert(j == toks.len());
            } else {
                assert(j == self.spec_pos());
            }
        }
        match self.match_token("#MKAY") {
            Err(e) => {
                proof {
                    assert(j == toks.len());
                    assert(self.html_output@ =~= old(self).html_output@ + "<i>"@
                        + join_trailing(toks.subrange(start, toks.len() as int)));
                }
                return Err(e);
            },
            Ok(_) => {},
        }
        self.html_output.append("</i>");
        proof {
            assert(self.pstate() =~= spec_italics(old(self).tok_seq(), old(self).pstate())->Ok_0);
        }
        Ok(())
    }

    /// `Audio := "SOUNDZ" URL "#MKAY"`, emitting an audio block around the
    /// URL token.
    pub fn parse_audio(&mut self) -> (r: Result<(), CompileError>)
        requires
            old(self).wf(),
        ensures
            final(self).tok_seq() == old(self).tok_seq(),
            match spec_audio(old(self).tok_seq(), old(self).pstate()) {
                Ok(st) => r is Ok && final(self).wf() && final(self).pstate() == st,
                Err(e) => (r matches Err(err) && err@ == e) && final(self).html_output == old(
                    self,
                ).html_output && final(self).variables == old(self).variables,
            },
    {
        match self.match_token("SOUNDZ") {
            Err(e) => {
                return Err(e);
            },
            Ok(_) => {},
        }
        proof {
            lemma_cur_tok(self);
        }
        let audio_address = self.current_token();
        self.next_token();
        match self.match_token("#MKAY") {
            Err(e) => {
                return Err(e);
            },
            Ok(_) => {},
        }
        self.html_output.append("<audio controls>\n  <source src=\"");
        self.html_output.append(audio_address.as_str());
        self.html_output.append("\" type=\"audio/mpeg\">\n</audio>\n");
        proof {
            assert(self.pstate() =~= spec_audio(old(self).tok_seq(), old(self).pstate())->Ok_0);
        }
        Ok(())
    }

    /// `Video := "VIDZ" URL "#MKAY"`, emitting a video block around the URL
    /// token.
    pub fn parse_video(&mut self) -> (r: Result<(), CompileError>)
        requires
            old(self).wf(),
        ensures
            final(self).tok_seq() == old(self).tok_seq(),
            match spec_video(old(self).tok_seq(), old(self).pstate()) {
                Ok(st) => r is Ok && final(self).wf() && final(self).pstate() == st,
                Err(e) => (r matches Err(err) && err@ == e) && final(self).html_output == old(
                    self,
                ).html_output && final(self).variables == old(self).variables,
            },
    {
        match self.match_token("VIDZ") {
            Err(e) => {
                return Err(e);
            },
            Ok(_) => {},
        }
        proof {
            lemma_cur_tok(self);
        }
        let video_address = self.current_token();
        self.next_token();
        match self.match_token("#MKAY") {
            Err(e) => {
                return Err(e);
            },
            Ok(_) => {},
        }
        self.html_output.append("<video controls>\n  <source src=\"");
        self.html_output.append(video_address.as_str());
        self.html_output.append("\" type=\"video/mp4\">\n</video>\n");
        proof {
            assert(self.pstate() =~= spec_video(old(self).tok_seq(), old(self).pstate())->Ok_0);
        }
        Ok(())
    }

    /// `VarDefine := "#I" "HAZ" NAME "#IT" "IZ" {TEXT} "#MKAY"`, binding the
    /// name to the space-joined, trimmed value.
    #[verifier::loop_isolation(false)]
    pub fn parse_variable_define(&mut self) -> (r: Result<(), CompileError>)
        requires
            old(self).wf(),
        ensures
            final(self).tok_seq() == old(self).tok_seq(),
            final(self).html_output == old(self).html_output,
            match spec_var_define(old(self).tok_seq(), old(self).pstate()) {
                Ok(st) => r is Ok && final(self).wf() && final(self).pstate() == st,
                Err(e) => (r matches Err(err) && err@ == e) && (final(self).variables == old(
                    self,
                ).variables || final(self).pairs() == old(self).pairs().push(
                    (
                        cur_tok(old(self).tok_seq(), old(self).spec_pos() + 2),
                        join_spaced(
                            old(self).tok_seq().subrange(
                                old(self).spec_pos() + 5,
                                old(self).tok_seq().len() as int,
                            ),
                        ),
                    ),
                )),
            },
    {
        match self.match_token("#I") {
            Err(e) => {
                return Err(e);
            },
            Ok(_) => {},
        }
        match self.match_token("HAZ") {
            Err(e) => {
                return Err(e);
            },
            Ok(_) => {},
        }
        proof {
            lemma_cur_tok(self);
        }
        let var_name = self.current_token();
        self.next_token();
        match self.match_token("#IT") {
            Err(e) => {
                return Err(e);
            },
            Ok(_) => {},
        }
        match self.match_token("IZ") {
            Err(e) => {
                return Err(e);
            },
            Ok(_) => {},
        }
        let ghost toks = self.tok_seq();
        let ghost st5 = self.pstate();
        let ghost start = self.spec_pos();
        let ghost j = first_match(toks, start, "#MKAY"@);
        proof {
            keyword_lengths();
            lemma_first_match(toks, start, "#MKAY"@);
            let toks0 = old(self).tok_seq();
            let st0 = old(self).pstate();
            lemma_match_mono(toks0, st0, "#I"@);
            if let Ok(sa) = spec_match(toks0, st0, "#I"@) {
                lemma_match_mono(toks0, sa, "HAZ"@);
                if let Ok(sb) = spec_match(toks0, sa, "HAZ"@) {
                    let sc = PState { pos: next_pos(toks0, sb.pos), ..sb };
                    lemma_match_mono(toks0, sc, "#IT"@);
                    if let Ok(sd) = spec_match(toks0, sc, "#IT"@) {
                        lemma_match_mono(toks0, sd, "IZ"@);
                    }
                }
            }
            assert(var_name@ == cur_tok(old(self).tok_seq(), old(self).spec_pos() + 2));
            assert(start == old(self).spec_pos() + 5);
        }
        let mut var_value = String::new();
        let mut first: bool = true;
        while !str_eq_ci(self.current.as_str(), "#MKAY") && !self.current.as_str().is_empty()
            invariant
                self.wf(),
                self.tok_seq() == toks,
                self.variables == old(self).variables,
                self.html_output == old(self).html_output,
                start <= self.spec_pos() <= j,
                j == first_match(toks, self.spec_pos(), "#MKAY"@),
                first == (self.spec_pos() == start),
                var_value@ == join_spaced(toks.subrange(start, self.spec_pos())),
            decreases j - self.spec_pos(),
        {
            proof {
                lemma_cur_tok(self);
            }
            let ghost p = self.spec_pos();
            let tok = self.current_token();
            if !first {
                var_value.append(" ");
            }
            var_value.append(tok.as_str());
            first = false;
            proof {
                lemma_join_spaced_push(toks.subrange(start, p), toks[p]);
                assert(toks.subrange(start, p + 1) =~= toks.subrange(start, p).push(toks[p]));
                assert(var_value@ =~= join_spaced(toks.subrange(start, p + 1)));
            }
            self.next_token();
            proof {
                lemma_first_match(toks, self.spec_pos(), "#MKAY"@);
                assert(self.spec_pos() > start);
            }
        }
        proof {
            lemma_cur_tok(self);
            if self.current@.len() == 0 {
                assert(j == toks.len());
            } else {
                assert(j == self.spec_pos());
            }
        }
        let ghost old_pairs = self.pairs();
        self.variables.push((var_name, var_value));
        proof {
            assert(self.pairs() =~= old_pairs.push(
                (self.variables@.last().0@, self.variables@.last().1@),
            ));
            lemma_vars_map_push(
                old_pairs,
                (self.variables@.last().0@, self.variables@.last().1@),
            );
        }
        match self.match_token("#MKAY") {
            Err(e) => {
                proof {
                    assert(j == toks.len());
                    assert(var_value@ == join_spaced(toks.subrange(start, toks.len() as int)));
                    assert(old_pairs =~= old(self).pairs());
                    assert(self.pairs() =~= old(self).pairs().push(
                        (
                            cur_tok(old(self).tok_seq(), old(self).spec_pos() + 2),
                            join_spaced(
                                old(self).tok_seq().subrange(
                                    old(self).spec_pos() + 5,
                                    old(self).tok_seq().len() as int,
                                ),
                            ),
                        ),
                    ));
                }
                return Err(e);
            },
            Ok(_) => {},
        }
        proof {
            assert(self.pstate() =~= spec_var_define(
                old(self).tok_seq(),
                old(self).pstate(),
            )->Ok_0);
        }
        Ok(())
    }

    /// `VarUse := "#LEMME" "SEE" NAME "#MKAY"`, appending the stored value
    /// and one space; an unbound name is the fatal undefined-variable error.
    pub fn parse_variable_use(&mut self) -> (r: Result<(), CompileError>)
        requires
            old(self).wf(),
        ensures
            final(self).tok_seq() == old(self).tok_seq(),
            final(self).variables == old(self).variables,
            match spec_var_use(old(self).tok_seq(), old(self).pstate()) {
                Ok(st) => r is Ok && final(self).wf() && final(self).pstate() == st,
                Err(e) => (r matches Err(err) && err@ == e) && final(self).html_output == old(
                    self,
                ).html_output,
            },
    {
        match self.match_token("#LEMME") {
            Err(e) => {
                return Err(e);
            },
            Ok(_) => {},
        }
        match self.match_token("SEE") {
            Err(e) => {
                return Err(e);
            },
            Ok(_) => {},
        }
        proof {
            lemma_cur_tok(self);
        }
        let var_name = self.current_token();
        self.next_token();
        match self.match_token("#MKAY") {
            Err(e) => {
                return Err(e);
            },
            Ok(_) => {},
        }
        match self.lookup_variable(var_name.as_str()) {
            Some(val) => {
                self.html_output.append(val.as_str());
                self.html_output.append(" ");
                proof {
                    assert(self.pstate() =~= spec_var_use(
                        old(self).tok_seq(),
                        old(self).pstate(),
                    )->Ok_0);
                }
                Ok(())
            },
            None => Err(CompileError::UndefinedVariable(var_name)),
        }
    }
    /// `Title := "#GIMMEH" "TITLE" {TEXT} "#MKAY"`, emitting the document
    /// prefix with the space-joined, trimmed title text.
    #[verifier::loop_isolation(false)]
    pub fn parse_title(&mut self) -> (r: Result<(), CompileError>)
        requires
            old(self).wf(),
        ensures
            final(self).tok_seq() == old(self).tok_seq(),
            final(self).variables == old(self).variables,
            match spec_title(old(self).tok_seq(), old(self).pstate()) {
                Ok(st) => r is Ok && final(self).wf() && final(self).pstate() == st,
                Err(e) => (r matches Err(err) && err@ == e) && final(self).html_output == old(
                    self,
                ).html_output,
            },
    {
        match self.match_token("#GIMMEH") {
            Err(e) => {
                return Err(e);
            },
            Ok(_) => {},
        }
        match self.match_token("TITLE") {
            Err(e) => {
                return Err(e);
            },
            Ok(_) => {},
        }
        let ghost toks = self.tok_seq();
        let ghost st2 = self.pstate();
        let ghost start = self.spec_pos();
        let ghost j = first_match(toks, start, "#MKAY"@);
        proof {
            keyword_lengths();
            lemma_first_match(toks, start, "#MKAY"@);
        }
        let mut title_text = String::new();
        let mut first: bool = true;
        while !str_eq_ci(self.current.as_str(), "#MKAY") && !self.current.as_str().is_empty()
            invariant
                self.wf(),
                self.tok_seq() == toks,
                self.variables == old(self).variables,
                self.html_output == old(self).html_output,
                start <= self.spec_pos() <= j,
                j == first_match(toks, self.spec_pos(), "#MKAY"@),
                first == (self.spec_pos() == start),
                title_text@ == join_spaced(toks.subrange(start, self.spec_pos())),
            decreases j - self.spec_pos(),
        {
            proof {
                lemma_cur_tok(self);
            }
            let ghost p = self.spec_pos();
            let tok = self.current_token();
            if !first {
                title_text.append(" ");
            }
            title_text.append(tok.as_str());
            first = false;
            proof {
                lemma_join_spaced_push(toks.subrange(start, p), toks[p]);
                assert(toks.subrange(start, p + 1) =~= toks.subrange(start, p).push(toks[p]));
                assert(title_text@ =~= join_spaced(toks.subrange(start, p + 1)));
            }
            self.next_token();
            proof {
                lemma_first_match(toks, self.spec_pos(), "#MKAY"@);
                assert(self.spec_pos() > start);
            }
        }
        proof {
            lemma_cur_tok(self);
            if self.current@.len() == 0 {
                assert(j == toks.len());
            } else {
                assert(j == self.spec_pos());
            }
        }
        match self.match_token("#MKAY") {
            Err(e) => {
                return Err(e);
            },
            Ok(_) => {},
        }
        self.html_output.append("<html><head><title>");
        self.html_output.append(title_text.as_str());
        self.html_output.append("</title></head><body>\n");
        proof {
            assert(self.pstate() =~= spec_title(old(self).tok_seq(), old(self).pstate())->Ok_0);
        }
        Ok(())
    }

    /// `Comment := "#OBTW" {ANY} "#TLDR"`, consumed and discarded.
    #[verifier::loop_isolation(false)]
    pub fn parse_comment(&mut self) -> (r: Result<(), CompileError>)
        requires
            old(self).wf(),
        ensures
            final(self).tok_seq() == old(self).tok_seq(),
            final(self).variables == old(self).variables,
            final(self).html_output == old(self).html_output,
            match spec_comment(old(self).tok_seq(), old(self).pstate()) {
                Ok(st) => r is Ok && final(self).wf() && final(self).pstate() == st,
                Err(e) => r matches Err(err) && err@ == e,
            },
    {
        match self.match_token("#OBTW") {
            Err(e) => {
                return Err(e);
            },
            Ok(_) => {},
        }
        let ghost toks = self.tok_seq();
        let ghost st1 = self.pstate();
        let ghost start = self.spec_pos();
        let ghost j = first_match(toks, start, "#TLDR"@);
        proof {
            keyword_lengths();
            lemma_first_match(toks, start, "#TLDR"@);
        }
        while !str_eq_ci(self.current.as_str(), "#TLDR") && !self.current.as_str().is_empty()
            invariant
                self.wf(),
                self.tok_seq() == toks,
                self.variables == old(self).variables,
                self.html_output == old(self).html_output,
                start <= self.spec_pos() <= j,
                j == first_match(toks, self.spec_pos(), "#TLDR"@),
            decreases j - self.spec_pos(),
        {
            proof {
                lemma_cur_tok(self);
            }
            self.next_token();
            proof {
                lemma_first_match(toks, self.spec_pos(), "#TLDR"@);
            }
        }
        proof {
            lemma_cur_tok(self);
            if self.current@.len() == 0 {
                assert(j == toks.len());
            } else {
                assert(j == self.spec_pos());
            }
        }
        match self.match_token("#TLDR") {
            Err(e) => {
                return Err(e);
            },
            Ok(_) => {},
        }
        proof {
            assert(self.pstate() =~= spec_comment(old(self).tok_seq(), old(self).pstate())->Ok_0);
        }
        Ok(())
    }

    /// `InlineForm`: dispatches on the current token to a `#GIMMEH` form, a
    /// variable use or definition, or plain text.
    pub fn parse_inner_text(&mut self) -> (r: Result<(), CompileError>)
        requires
            old(self).wf(),
        ensures
            final(self).tok_seq() == old(self).tok_seq(),
            match spec_inner_text(old(self).tok_seq(), old(self).pstate()) {
                Ok(st) => r is Ok && final(self).wf() && final(self).pstate() == st,
                Err(e) => (r matches Err(err) && err@ == e) && ((e matches
                    ErrSpec::UnexpectedConstruct(_) || e matches ErrSpec::UndefinedVariable(_)
                    || e matches ErrSpec::InvalidText(_)) ==> final(self).html_output == old(
                    self,
                ).html_output && final(self).variables == old(self).variables),
            },
    {
        proof {
            lemma_cur_tok(self);
        }
        if str_eq_ci(self.current.as_str(), "#GIMMEH") {
            self.next_token();
            proof {
                lemma_cur_tok(self);
                assert(self.pstate() =~= (PState {
                    pos: next_pos(old(self).tok_seq(), old(self).spec_pos()),
                    ..old(self).pstate()
                }));
            }
            if str_eq_ci(self.current.as_str(), "BOLD") {
                self.parse_bold()
            } else if str_eq_ci(self.current.as_str(), "ITALICS") {
                self.parse_italics()
            } else if str_eq_ci(self.current.as_str(), "NEWLINE") {
                self.parse_newline()
            } else if str_eq_ci(self.current.as_str(), "SOUNDZ") {
                self.parse_audio()
            } else if str_eq_ci(self.current.as_str(), "VIDZ") {
                self.parse_video()
            } else {
                Err(CompileError::UnexpectedConstruct(self.current_token()))
            }
        } else if str_eq_ci(self.current.as_str(), "#LEMME") {
            self.parse_variable_use()
        } else if str_eq_ci(self.current.as_str(), "#I") {
            self.parse_variable_define()
        } else {
            self.parse_text()
        }
    }

    /// `Head := [ "#MAEK" "HEAD" {HeadItem} "#OIC" ]`: optional, and
    /// deliberately permissive inside — a title is parsed at each `#GIMMEH`
    /// and any other token is skipped without error.
    #[verifier::loop_isolation(false)]
    pub fn parse_head(&mut self) -> (r: Result<(), CompileError>)
        requires
            old(self).wf(),
        ensures
            final(self).tok_seq() == old(self).tok_seq(),
            final(self).variables == old(self).variables,
            match spec_head(old(self).tok_seq(), old(self).pstate()) {
                Ok(st) => r is Ok && final(self).wf() && final(self).pstate() == st,
                Err(e) => r matches Err(err) && err@ == e,
            },
    {
        proof {
            lemma_cur_tok(self);
        }
        if !str_eq_ci(self.current.as_str(), "#MAEK") {
            return Ok(());
        }
        match self.match_token("#MAEK") {
            Err(e) => {
                return Err(e);
            },
            Ok(_) => {},
        }
        match self.match_token("HEAD") {
            Err(e) => {
                return Err(e);
            },
            Ok(_) => {},
        }
        let ghost toks = self.tok_seq();
        let ghost sth = self.pstate();
        while !str_eq_ci(self.current.as_str(), "#OIC") && !self.current.as_str().is_empty()
            invariant
                self.wf(),
                self.tok_seq() == toks,
                self.variables == old(self).variables,
                spec_head_scan(toks, sth) == spec_head_scan(toks, self.pstate()),
            decreases toks.len() - self.spec_pos(),
        {
            proof {
                lemma_cur_tok(self);
            }
            let ghost stc = self.pstate();
            if str_eq_ci(self.current.as_str(), "#GIMMEH") {
                match self.parse_title() {
                    Err(e) => {
                        return Err(e);
                    },
                    Ok(_) => {},
                }
                proof {
                    lemma_title_mono(toks, stc);
                }
            } else {
                self.next_token();
                proof {
                    assert(self.pstate() =~= (PState { pos: stc.pos + 1, ..stc }));
                }
            }
        }
        proof {
            lemma_cur_tok(self);
        }
        match self.match_token("#OIC") {
            Err(e) => {
                return Err(e);
            },
            Ok(_) => {},
        }
        proof {
            assert(self.pstate() =~= spec_head(old(self).tok_seq(), old(self).pstate())->Ok_0);
        }
        Ok(())
    }

    /// Inline forms repeated up to `#OIC` or the end of the stream.
    #[verifier::loop_isolation(false)]
    pub fn parse_inner_paragraph(&mut self) -> (r: Result<(), CompileError>)
        requires
            old(self).wf(),
        ensures
            final(self).tok_seq() == old(self).tok_seq(),
            match spec_inner_paragraph(old(self).tok_seq(), old(self).pstate()) {
                Ok(st) => r is Ok && final(self).wf() && final(self).pstate() == st,
                Err(e) => r matches Err(err) && err@ == e,
            },
    {
        let ghost toks = self.tok_seq();
        let ghost st0 = self.pstate();
        while !str_eq_ci(self.current.as_str(), "#OIC") && !self.current.as_str().is_empty()
            invariant
                self.wf(),
                self.tok_seq() == toks,
                spec_inner_paragraph(toks, st0) == spec_inner_paragraph(toks, self.pstate()),
            decreases toks.len() - self.spec_pos(),
        {
            proof {
                lemma_cur_tok(self);
            }
            let ghost stc = self.pstate();
            match self.parse_inner_text() {
                Err(e) => {
                    return Err(e);
                },
                Ok(_) => {},
            }
            proof {
                lemma_inner_text_mono(toks, stc);
            }
        }
        proof {
            lemma_cur_tok(self);
        }
        Ok(())
    }

    /// `Paragraph := "#MAEK" "PARAGRAF" {InlineForm} "#OIC"`, wrapped in
    /// `<p>`.
    pub fn parse_paragraph(&mut self) -> (r: Result<(), CompileError>)
        requires
            old(self).wf(),
        ensures
            final(self).tok_seq() == old(self).tok_seq(),
            match spec_paragraph(old(self).tok_seq(), old(self).pstate()) {
                Ok(st) => r is Ok && final(self).wf() && final(self).pstate() == st,
                Err(e) => r matches Err(err) && err@ == e,
            },
    {
        match self.match_token("#MAEK") {
            Err(e) => {
                return Err(e);
            },
            Ok(_) => {},
        }
        match self.match_token("PARAGRAF") {
            Err(e) => {
                return Err(e);
            },
            Ok(_) => {},
        }
        self.html_output.append("<p>");
        match self.parse_inner_paragraph() {
            Err(e) => {
                return Err(e);
            },
            Ok(_) => {},
        }
        self.html_output.append("</p>\n");
        match self.match_token("#OIC") {
            Err(e) => {
                return Err(e);
            },
            Ok(_) => {},
        }
        proof {
            assert(self.pstate() =~= spec_paragraph(old(self).tok_seq(), old(self).pstate())->Ok_0);
        }
        Ok(())
    }

    /// `Body := {BodyItem}` until `#KTHXBYE` or the end of the stream, then
    /// the single closing emission.
    #[verifier::loop_isolation(false)]
    pub fn parse_body(&mut self) -> (r: Result<(), CompileError>)
        requires
            old(self).wf(),
        ensures
            final(self).tok_seq() == old(self).tok_seq(),
            match spec_body(old(self).tok_seq(), old(self).pstate()) {
                Ok(st) => r is Ok && final(self).wf() && final(self).pstate() == st,
                Err(e) => r matches Err(err) && err@ == e,
            },
    {
        let ghost toks = self.tok_seq();
        let ghost st0 = self.pstate();
        while !str_eq_ci(self.current.as_str(), "#KTHXBYE") && !self.current.as_str().is_empty()
            invariant
                self.wf(),
                self.tok_seq() == toks,
                spec_body_items(toks, st0) == spec_body_items(toks, self.pstate()),
            decreases toks.len() - self.spec_pos(),
        {
            proof {
                lemma_cur_tok(self);
            }
            let ghost stc = self.pstate();
            if str_eq_ci(self.current.as_str(), "#MAEK") {
                match self.parse_paragraph() {
                    Err(e) => {
                        return Err(e);
                    },
                    Ok(_) => {},
                }
                proof {
                    lemma_paragraph_mono(toks, stc);
                }
            } else if str_eq_ci(self.current.as_str(), "#GIMMEH") {
                match self.parse_inner_text() {
                    Err(e) => {
                        return Err(e);
                    },
                    Ok(_) => {},
                }
                proof {
                    lemma_inner_text_mono(toks, stc);
                }
            } else if str_eq_ci(self.current.as_str(), "#LEMME") {
                match self.parse_variable_use() {
                    Err(e) => {
                        return Err(e);
                    },
                    Ok(_) => {},
                }
                proof {
                    lemma_var_use_mono(toks, stc);
                }
            } else if str_eq_ci(self.current.as_str(), "#I") {
                match self.parse_variable_define() {
                    Err(e) => {
                        return Err(e);
                    },
                    Ok(_) => {},
                }
                proof {
                    lemma_var_define_mono(toks, stc);
                }
            } else {
                match self.parse_text() {
                    Err(e) => {
                        return Err(e);
                    },
                    Ok(_) => {},
                }
                proof {
                    lemma_text_mono(toks, stc);
                }
            }
        }
        proof {
            lemma_cur_tok(self);
        }
        self.html_output.append("</body></html>");
        proof {
            assert(self.pstate() =~= spec_body(old(self).tok_seq(), old(self).pstate())->Ok_0);
        }
        Ok(())
    }

    /// Items of a list, each `"#GIMMEH" "ITEM" InlineForm "#MKAY"`, wrapped
    /// in `<li>`.
    #[verifier::loop_isolation(false)]
    pub fn parse_list_items(&mut self) -> (r: Result<(), CompileError>)
        requires
            old(self).wf(),
        ensures
            final(self).tok_seq() == old(self).tok_seq(),
            match spec_list_items(old(self).tok_seq(), old(self).pstate()) {
                Ok(st) => r is Ok && final(self).wf() && final(self).pstate() == st,
                Err(e) => r matches Err(err) && err@ == e,
            },
    {
        let ghost toks = self.tok_seq();
        let ghost st0 = self.pstate();
        while str_eq_ci(self.current.as_str(), "#GIMMEH")
            invariant
                self.wf(),
                self.tok_seq() == toks,
                spec_list_items(toks, st0) == spec_list_items(toks, self.pstate()),
            decreases toks.len() - self.spec_pos(),
        {
            proof {
                lemma_cur_tok(self);
                keyword_lengths();
            }
            let ghost stc = self.pstate();
            match self.match_token("#GIMMEH") {
                Err(e) => {
                    return Err(e);
                },
                Ok(_) => {},
            }
            match self.match_token("ITEM") {
                Err(e) => {
                    return Err(e);
                },
                Ok(_) => {},
            }
            self.html_output.append("<li>");
            let ghost sti = self.pstate();
            match self.parse_inner_text() {
                Err(e) => {
                    return Err(e);
                },
                Ok(_) => {},
            }
            proof {
                lemma_inner_text_mono(toks, sti);
            }
            self.html_output.append("</li>\n");
            match self.match_token("#MKAY") {
                Err(e) => {
                    return Err(e);
                },
                Ok(_) => {},
            }
        }
        proof {
            lemma_cur_tok(self);
        }
        Ok(())
    }

    /// The inside of one list item: a single inline form.
    pub fn parse_inner_list(&mut self) -> (r: Result<(), CompileError>)
        requires
            old(self).wf(),
        ensures
            final(self).tok_seq() == old(self).tok_seq(),
            match spec_inner_text(old(self).tok_seq(), old(self).pstate()) {
                Ok(st) => r is Ok && final(self).wf() && final(self).pstate() == st,
                Err(e) => (r matches Err(err) && err@ == e) && ((e matches
                    ErrSpec::UnexpectedConstruct(_) || e matches ErrSpec::UndefinedVariable(_)
                    || e matches ErrSpec::InvalidText(_)) ==> final(self).html_output == old(
                    self,
                ).html_output && final(self).variables == old(self).variables),
            },
    {
        self.parse_inner_text()
    }

    /// `List := "#MAEK" "LIST" {ListItem} "#OIC"`, wrapped in `<ul>`. The
    /// lexer knows the `LIST` and `ITEM` keywords, but no production of
    /// `parse_body` or `parse_inner_text` dispatches here; the construct is
    /// reachable only by calling it directly.
    pub fn parse_list(&mut self) -> (r: Result<(), CompileError>)
        requires
            old(self).wf(),
        ensures
            final(self).tok_seq() == old(self).tok_seq(),
            match spec_list(old(self).tok_seq(), old(self).pstate()) {
                Ok(st) => r is Ok && final(self).wf() && final(self).pstate() == st,
                Err(e) => r matches Err(err) && err@ == e,
            },
    {
        match self.match_token("#MAEK") {
            Err(e) => {
                return Err(e);
            },
            Ok(_) => {},
        }
        match self.match_token("LIST") {
            Err(e) => {
                return Err(e);
            },
            Ok(_) => {},
        }
        self.html_output.append("<ul>\n");
        match self.parse_list_items() {
            Err(e) => {
                return Err(e);
            },
            Ok(_) => {},
        }
        self.html_output.append("</ul>\n");
        match self.match_token("#OIC") {
            Err(e) => {
                return Err(e);
            },
            Ok(_) => {},
        }
        proof {
            assert(self.pstate() =~= spec_list(old(self).tok_seq(), old(self).pstate())->Ok_0);
        }
        Ok(())
    }

    /// `Program := "#HAI" {Comment} Head Body "#KTHXBYE"`; tokens after
    /// `#KTHXBYE` are ignored.
    #[verifier::loop_isolation(false)]
    pub fn parse_lolcode(&mut self) -> (r: Result<(), CompileError>)
        requires
            old(self).wf(),
        ensures
            final(self).tok_seq() == old(self).tok_seq(),
            match spec_program(old(self).tok_seq(), old(self).pstate()) {
                Ok(st) => r is Ok && final(self).wf() && final(self).pstate() == st,
                Err(e) => (r matches Err(err) && err@ == e) && (spec_match(
                    old(self).tok_seq(),
                    old(self).pstate(),
                    "#HAI"@,
                ) is Err ==> *final(self) == *old(self)),
            },
    {
        match self.match_token("#HAI") {
            Err(e) => {
                return Err(e);
            },
            Ok(_) => {},
        }
        let ghost toks = self.tok_seq();
        let ghost st1 = self.pstate();
        while str_eq_ci(self.current.as_str(), "#OBTW")
            invariant
                self.wf(),
                self.tok_seq() == toks,
                spec_comments(toks, st1) == spec_comments(toks, self.pstate()),
            decreases toks.len() - self.spec_pos(),
        {
            proof {
                lemma_cur_tok(self);
            }
            let ghost stc = self.pstate();
            match self.parse_comment() {
                Err(e) => {
                    return Err(e);
                },
                Ok(_) => {},
            }
            proof {
                lemma_comment_mono(toks, stc);
            }
        }
        proof {
            lemma_cur_tok(self);
        }
        match self.parse_head() {
            Err(e) => {
                return Err(e);
            },
            Ok(_) => {},
        }
        match self.parse_body() {
            Err(e) => {
                return Err(e);
            },
            Ok(_) => {},
        }
        match self.match_token("#KTHXBYE") {
            Err(e) => {
                return Err(e);
            },
            Ok(_) => {},
        }
        Ok(())
    }

    /// Runs the whole syntax analysis from the current cursor position.
    pub fn parse(&mut self) -> (r: Result<(), CompileError>)
        requires
            old(self).wf(),
        ensures
            final(self).tok_seq() == old(self).tok_seq(),
            match spec_program(old(self).tok_seq(), old(self).pstate()) {
                Ok(st) => r is Ok && final(self).wf() && final(self).pstate() == st,
                Err(e) => (r matches Err(err) && err@ == e) && (spec_match(
                    old(self).tok_seq(),
                    old(self).pstate(),
                    "#HAI"@,
                ) is Err ==> *final(self) == *old(self)),
            },
    {
        self.parse_lolcode()
    }

    /// A whole compilation: tokenize the source, reject an empty token
    /// stream, and parse from position zero, growing the HTML buffer and the
    /// symbol table this compiler already holds.
    pub fn compile(&mut self, source: &str) -> (r: Result<(), CompileError>)
        ensures
            match spec_compile(source@, old(self).vars_view(), old(self).html_output@) {
                Ok(st) => r is Ok && final(self).wf() && final(self).pstate() == st,
                Err(e) => r matches Err(err) && err@ == e,
            },
            r is Ok ==> (spec_tokenize(source@) matches Ok(ts) && final(self).tok_seq() == ts),
            spec_tokenize(source@) is Err ==> *final(self) == *old(self),
            (spec_tokenize(source@) matches Ok(ts) && ts.len() == 0) ==> *final(self) == *old(
                self,
            ),
    {
        let mut lexer = LolLexer::new();
        let toks = match lexer.tokenize(source) {
            Ok(t) => t,
            Err(e) => {
                return Err(e);
            },
        };
        if toks.len() == 0 {
            assert(views_of(toks@) =~= Seq::<Seq<char>>::empty());
            return Err(CompileError::InputError);
        }
        self.tokens = toks;
        self.current_index = 0;
        self.current = self.tokens[0].clone();
        proof {
            lemma_lex_tokens_nonempty(source@, 0, Seq::empty(), Seq::empty());
            assert forall|i: int|
                0 <= i < self.tokens@.len() implies (#[trigger] self.tokens@[i])@.len() != 0 by {
                assert(self.tok_seq()[i] == self.tokens@[i]@);
            }
            assert(self.tok_seq()[0] == self.tokens@[0]@);
            assert(self.current@.len() != 0);
            assert(self.wf());
            assert(self.pstate() =~= (PState {
                pos: 0,
                vars: old(self).vars_view(),
                html: old(self).html_output@,
            }));
        }
        match self.parse() {
            Err(e) => {
                return Err(e);
            },
            Ok(_) => {},
        }
        Ok(())
    }
}

/// Under a consistent cursor the abstract current token is the held one.
pub proof fn lemma_cur_tok(c: &LolCompiler)
    requires
        c.wf(),
    ensures
        cur_tok(c.tok_seq(), c.spec_pos()) == c.current@,
{
    if c.current@.len() == 0 {
        assert(c.current@ =~= Seq::<char>::empty());
    } else {
        assert(c.tok_seq()[c.current_index as int] == c.tokens@[c.current_index as int]@);
    }
}

} // verus!
