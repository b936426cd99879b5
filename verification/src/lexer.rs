//! The lexer: turns a source text into tokens. An `import 'name'` form is
//! replaced by the tokens of the named library entry, recursively; a chain
//! of imports deeper than the library itself is reported as a failed
//! import, so cyclic imports end in an error rather than a loop.

use vstd::prelude::*;
use crate::text::{
    chars_to_string, lemma_pairs_view_index, lemma_pairs_view_len, pairs_view, push_str,
    push_string, sat_add, sat_add_usize, str_chars,
};
use crate::token::{loc_text, LocV, Token, TokenLoc, TokenV};
use vstd::string::StrSliceExecFns;

verus! {

/// What `char::is_whitespace` returns; the result depends on the character
/// alone.
pub uninterp spec fn is_whitespace_char(c: char) -> bool;

/// Relies on `char::is_whitespace`.
#[verifier::external_body]
fn char_is_whitespace(c: char) -> (r: bool)
    ensures
        r == is_whitespace_char(c),
{
    c.is_whitespace()
}

/// What `char::is_alphabetic` returns; the result depends on the character
/// alone.
pub uninterp spec fn is_alphabetic_char(c: char) -> bool;

/// Relies on `char::is_alphabetic`.
#[verifier::external_body]
fn char_is_alphabetic(c: char) -> (r: bool)
    ensures
        r == is_alphabetic_char(c),
{
    c.is_alphabetic()
}

/// What `char::is_alphanumeric` returns; the result depends on the
/// character alone.
pub uninterp spec fn is_alphanumeric_char(c: char) -> bool;

/// Relies on `char::is_alphanumeric`.
#[verifier::external_body]
fn char_is_alphanumeric(c: char) -> (r: bool)
    ensures
        r == is_alphanumeric_char(c),
{
    c.is_alphanumeric()
}

/// Whether a name may stand as an identifier: the lone underscore, or a
/// letter followed by letters, digits and underscores.
pub open spec fn spec_is_valid_id(id: Seq<char>) -> bool {
    id == seq!['_'] || (id.len() > 0 && is_alphabetic_char(id[0]) && (forall|i: int|
        1 <= i < id.len() ==> (is_alphanumeric_char(#[trigger] id[i]) || id[i] == '_')))
}

/// Checks if a string is a valid identifier.
pub fn is_valid_id(id: &Vec<char>) -> (r: bool)
    requires
        id@.len() > 0,
    ensures
        r == spec_is_valid_id(id@),
{
    if id.len() == 1 && id[0] == '_' {
        assert(id@ =~= seq!['_']);
        return true;
    }
    if !char_is_alphabetic(id[0]) {
        assert(id@ != seq!['_']) by {
            if id@ =~= seq!['_'] {
                assert(id@[0] == '_');
            }
        }
        return false;
    }
    let mut i: usize = 1;
    while i < id.len()
        invariant
            1 <= i <= id@.len(),
            forall|j: int| 1 <= j < i ==> (is_alphanumeric_char(#[trigger] id@[j]) || id@[j]
                == '_'),
        decreases id@.len() - i,
    {
        let ok = char_is_alphanumeric(id[i]);
        if !ok && id[i] != '_' {
            return false;
        }
        i = i + 1;
    }
    true
}

/// The token for a punctuation character, if it is one.
pub open spec fn spec_punct(c: char) -> Option<TokenV> {
    if c == '(' {
        Some(TokenV::LParenthesis)
    } else if c == ')' {
        Some(TokenV::RParenthesis)
    } else if c == '{' {
        Some(TokenV::LBraces)
    } else if c == '}' {
        Some(TokenV::RBraces)
    } else if c == ':' {
        Some(TokenV::Colon)
    } else if c == '>' {
        Some(TokenV::Arrow)
    } else if c == '=' {
        Some(TokenV::Assign)
    } else if c == ',' {
        Some(TokenV::Comma)
    } else if c == '|' {
        Some(TokenV::Pipe)
    } else if c == '@' {
        Some(TokenV::Catch)
    } else {
        None
    }
}

fn punct_token(c: char) -> (r: Option<Token>)
    ensures
        match r {
            Some(t) => spec_punct(c) == Some(t@),
            None => spec_punct(c) is None,
        },
{
    if c == '(' {
        Some(Token::LParenthesis)
    } else if c == ')' {
        Some(Token::RParenthesis)
    } else if c == '{' {
        Some(Token::LBraces)
    } else if c == '}' {
        Some(Token::RBraces)
    } else if c == ':' {
        Some(Token::Colon)
    } else if c == '>' {
        Some(Token::Arrow)
    } else if c == '=' {
        Some(Token::Assign)
    } else if c == ',' {
        Some(Token::Comma)
    } else if c == '|' {
        Some(Token::Pipe)
    } else if c == '@' {
        Some(Token::Catch)
    } else {
        None
    }
}

/// Compares a character buffer with a string.
pub fn chars_eq_str(v: &Vec<char>, s: &str) -> (r: bool)
    ensures
        r == (v@ == s@),
{
    let n = s.unicode_len();
    if v.len() != n {
        return false;
    }
    let mut i: usize = 0;
    while i < n
        invariant
            i <= n,
            n == s@.len(),
            v@.len() == n,
            forall|j: int| 0 <= j < i ==> v@[j] == s@[j],
        decreases n - i,
    {
        if v[i] != s.get_char(i) {
            return false;
        }
        i = i + 1;
    }
    assert(v@ =~= s@);
    true
}

/// The keyword a name stands for, if any (`import` is handled apart).
pub open spec fn spec_keyword(s: Seq<char>) -> Option<TokenV> {
    if s == "match"@ {
        Some(TokenV::Match)
    } else if s == "any"@ {
        Some(TokenV::Any)
    } else if s == "let"@ {
        Some(TokenV::Let)
    } else if s == "in"@ {
        Some(TokenV::In)
    } else {
        None
    }
}

fn keyword_token(acc: &Vec<char>) -> (r: Option<Token>)
    ensures
        match r {
            Some(t) => spec_keyword(acc@) == Some(t@),
            None => spec_keyword(acc@) is None,
        },
{
    if chars_eq_str(acc, "match") {
        Some(Token::Match)
    } else if chars_eq_str(acc, "any") {
        Some(Token::Any)
    } else if chars_eq_str(acc, "let") {
        Some(Token::Let)
    } else if chars_eq_str(acc, "in") {
        Some(Token::In)
    } else {
        None
    }
}

/// The running state of the lexer.
pub struct LexState {
    pub toks: Vec<(Token, TokenLoc)>,
    pub loc: TokenLoc,
    pub acc: Vec<char>,
    pub in_quotes: bool,
    pub is_import: bool,
    pub is_comment: bool,
}

/// Mathematical model of the lexer state.
#[verifier::ext_equal]
pub struct LexV {
    pub toks: Seq<(TokenV, LocV)>,
    pub loc: LocV,
    pub acc: Seq<char>,
    pub in_quotes: bool,
    pub is_import: bool,
    pub is_comment: bool,
}

impl View for LexState {
    type V = LexV;

    open spec fn view(&self) -> LexV {
        LexV {
            toks: pairs_view(self.toks@),
            loc: self.loc@,
            acc: self.acc@,
            in_quotes: self.in_quotes,
            is_import: self.is_import,
            is_comment: self.is_comment,
        }
    }
}

pub open spec fn spec_new_state(import_name: Option<Seq<char>>) -> LexV {
    LexV {
        toks: Seq::empty(),
        loc: LocV { line: 1, col: 1, import: import_name },
        acc: Seq::empty(),
        in_quotes: false,
        is_import: false,
        is_comment: false,
    }
}

/// Message for a line break inside a quoted symbol.
pub open spec fn newline_err_text(l: LocV) -> Seq<char> {
    "Found new line inside quotes at "@ + loc_text(l) + ", which isn't supported"@
}

/// Message for a missing path after the import keyword.
pub open spec fn import_path_err_text(l: LocV, acc: Seq<char>) -> Seq<char> {
    "Expected import path after import keyword at "@ + loc_text(l) + ", instead found '"@ + acc
        + "'"@
}

/// Message for a name that is neither keyword nor identifier.
pub open spec fn unknown_id_err_text(acc: Seq<char>, l: LocV) -> Seq<char> {
    "Unknown keyword or invalid identifier '"@ + acc + "' found at "@ + loc_text(l)
}

/// Message for an import that cannot be served.
pub open spec fn import_err_text(path: Seq<char>, l: LocV) -> Seq<char> {
    "Couldn't import file "@ + path + " at "@ + loc_text(l)
}

fn newline_err(l: &TokenLoc) -> (r: String)
    ensures
        r@ == newline_err_text(l@),
{
    let mut out: Vec<char> = Vec::new();
    push_str(&mut out, "Found new line inside quotes at ");
    l.push_text(&mut out);
    push_str(&mut out, ", which isn't supported");
    assert(out@ =~= newline_err_text(l@));
    chars_to_string(&out)
}

fn import_path_err(l: &TokenLoc, acc: &Vec<char>) -> (r: String)
    ensures
        r@ == import_path_err_text(l@, acc@),
{
    let mut out: Vec<char> = Vec::new();
    push_str(&mut out, "Expected import path after import keyword at ");
    l.push_text(&mut out);
    push_str(&mut out, ", instead found '");
    let mut i: usize = 0;
    while i < acc.len()
        invariant
            i <= acc@.len(),
            out@ == "Expected import path after import keyword at "@ + loc_text(l@)
                + ", instead found '"@ + acc@.subrange(0, i as int),
        decreases acc@.len() - i,
    {
        out.push(acc[i]);
        i = i + 1;
        assert(out@ =~= "Expected import path after import keyword at "@ + loc_text(l@)
            + ", instead found '"@ + acc@.subrange(0, i as int));
    }
    assert(acc@.subrange(0, acc@.len() as int) =~= acc@);
    push_str(&mut out, "'");
    assert(out@ =~= import_path_err_text(l@, acc@));
    chars_to_string(&out)
}

fn push_chars(out: &mut Vec<char>, v: &Vec<char>)
    ensures
        final(out)@ == old(out)@ + v@,
{
    let mut i: usize = 0;
    while i < v.len()
        invariant
            i <= v@.len(),
            out@ == old(out)@ + v@.subrange(0, i as int),
        decreases v@.len() - i,
    {
        out.push(v[i]);
        i = i + 1;
        assert(out@ =~= old(out)@ + v@.subrange(0, i as int));
    }
    assert(out@ =~= old(out)@ + v@);
}

fn unknown_id_err(acc: &Vec<char>, l: &TokenLoc) -> (r: String)
    ensures
        r@ == unknown_id_err_text(acc@, l@),
{
    let mut out: Vec<char> = Vec::new();
    push_str(&mut out, "Unknown keyword or invalid identifier '");
    push_chars(&mut out, acc);
    push_str(&mut out, "' found at ");
    l.push_text(&mut out);
    assert(out@ =~= unknown_id_err_text(acc@, l@));
    chars_to_string(&out)
}

fn import_err(path: &String, l: &TokenLoc) -> (r: String)
    ensures
        r@ == import_err_text(path@, l@),
{
    let mut out: Vec<char> = Vec::new();
    push_str(&mut out, "Couldn't import file ");
    push_string(&mut out, path);
    push_str(&mut out, " at ");
    l.push_text(&mut out);
    assert(out@ =~= import_err_text(path@, l@));
    chars_to_string(&out)
}

/// The model of a `Result` from `consume`.
pub open spec fn unit_result_view(r: Result<(), String>) -> Result<(), Seq<char>> {
    match r {
        Ok(_) => Ok(()),
        Err(s) => Err(s@),
    }
}

/// The model of a `Result` from `push`.
pub open spec fn push_result_view(r: Result<Option<(String, TokenLoc)>, String>) -> Result<
    Option<(Seq<char>, LocV)>,
    Seq<char>,
> {
    match r {
        Ok(Some((p, l))) => Ok(Some((p@, l@))),
        Ok(None) => Ok(None),
        Err(s) => Err(s@),
    }
}

/// What consuming the accumulated characters does: the word becomes the
/// import marker, a keyword, or an identifier, and the column advances past
/// it; a word after `import`, or one that is no identifier, is an error.
pub open spec fn spec_consume(st: LexV) -> (LexV, Result<(), Seq<char>>) {
    if st.acc.len() > 0 {
        if st.is_import {
            (st, Err(import_path_err_text(st.loc, st.acc)))
        } else if st.acc == "import"@ {
            (
                LexV {
                    loc: LocV {
                        col: sat_add(st.loc.col, st.acc.len()),
                        line: st.loc.line,
                        import: st.loc.import,
                    },
                    acc: Seq::empty(),
                    is_import: true,
                    ..st
                },
                Ok(()),
            )
        } else {
            match spec_keyword(st.acc) {
                Some(t) => (
                    LexV {
                        toks: st.toks.push((t, st.loc)),
                        loc: LocV {
                            col: sat_add(st.loc.col, st.acc.len()),
                            line: st.loc.line,
                            import: st.loc.import,
                        },
                        acc: Seq::empty(),
                        ..st
                    },
                    Ok(()),
                ),
                None => {
                    if spec_is_valid_id(st.acc) {
                        (
                            LexV {
                                toks: st.toks.push((TokenV::Identifier(st.acc), st.loc)),
                                loc: LocV {
                                    col: sat_add(st.loc.col, st.acc.len()),
                                    line: st.loc.line,
                                    import: st.loc.import,
                                },
                                acc: Seq::empty(),
                                ..st
                            },
                            Ok(()),
                        )
                    } else {
                        (st, Err(unknown_id_err_text(st.acc, st.loc)))
                    }
                }
            }
        }
    } else {
        (st, Ok(()))
    }
}

/// What one character does to the lexer state. A closing quote after
/// `import` yields the path to import together with the location to blame.
pub open spec fn spec_push(st: LexV, c: char) -> (
    LexV,
    Result<Option<(Seq<char>, LocV)>, Seq<char>>,
) {
    if st.is_comment {
        if c == '\n' {
            (
                LexV {
                    is_comment: false,
                    loc: LocV { col: 1, line: sat_add(st.loc.line, 1), import: st.loc.import },
                    ..st
                },
                Ok(None),
            )
        } else {
            (st, Ok(None))
        }
    } else if st.in_quotes {
        if c == '\'' {
            let st2 = LexV {
                loc: LocV {
                    col: sat_add(st.loc.col, sat_add(st.acc.len(), 2)),
                    line: st.loc.line,
                    import: st.loc.import,
                },
                acc: Seq::empty(),
                in_quotes: false,
                is_import: false,
                ..st
            };
            if st.is_import {
                (st2, Ok(Some((st.acc, st.loc))))
            } else {
                (LexV { toks: st.toks.push((TokenV::Symbol(st.acc), st.loc)), ..st2 }, Ok(None))
            }
        } else if c == '\n' {
            (st, Err(newline_err_text(st.loc)))
        } else {
            (LexV { acc: st.acc.push(c), ..st }, Ok(None))
        }
    } else if c == '\'' {
        let (st1, r) = spec_consume(st);
        if r is Err {
            (st1, Err(r->Err_0))
        } else {
            (LexV { in_quotes: true, ..st1 }, Ok(None))
        }
    } else if c == '#' {
        (LexV { is_comment: true, ..st }, Ok(None))
    } else if is_whitespace_char(c) {
        let (st1, r) = spec_consume(st);
        if r is Err {
            (st1, Err(r->Err_0))
        } else if c == '\n' {
            (
                LexV {
                    loc: LocV { col: 1, line: sat_add(st1.loc.line, 1), import: st1.loc.import },
                    ..st1
                },
                Ok(None),
            )
        } else {
            (
                LexV {
                    loc: LocV {
                        col: sat_add(st1.loc.col, 1),
                        line: st1.loc.line,
                        import: st1.loc.import,
                    },
                    ..st1
                },
                Ok(None),
            )
        }
    } else {
        match spec_punct(c) {
            Some(t) => {
                let (st1, r) = spec_consume(st);
                if r is Err {
                    (st1, Err(r->Err_0))
                } else {
                    (
                        LexV {
                            toks: st1.toks.push((t, st1.loc)),
                            loc: LocV {
                                col: sat_add(st1.loc.col, 1),
                                line: st1.loc.line,
                                import: st1.loc.import,
                            },
                            ..st1
                        },
                        Ok(None),
                    )
                }
            }
            None => (LexV { acc: st.acc.push(c), ..st }, Ok(None)),
        }
    }
}

impl LexState {
    /// Initializes the lexer state.
    pub fn new(import_name: Option<String>) -> (r: Self)
        ensures
            r@ == spec_new_state(match import_name {
                Some(s) => Some(s@),
                None => None,
            }),
    {
        let r = LexState {
            toks: Vec::new(),
            loc: TokenLoc { line: 1, col: 1, import: import_name },
            acc: Vec::new(),
            in_quotes: false,
            is_import: false,
            is_comment: false,
        };
        assert(r@.toks =~= Seq::<(TokenV, LocV)>::empty());
        r
    }

    /// Pushes a new token to the output.
    pub fn push_tok(&mut self, tok: Token)
        ensures
            final(self)@ == (LexV { toks: old(self)@.toks.push((tok@, old(self)@.loc)), ..old(
                self,
            )@ }),
    {
        let loc = self.loc.clone();
        let ghost pre = self.toks@;
        self.toks.push((tok, loc));
        proof {
            assert(pairs_view(pre.push((tok, loc))).drop_last() == pairs_view(pre)) by {
                assert(pre.push((tok, loc)).drop_last() =~= pre);
            }
            assert(final(self)@.toks =~= old(self)@.toks.push((tok@, old(self)@.loc)));
        }
    }

    /// Consumes accumulated characters found between punctuation and
    /// whitespace.
    pub fn consume(&mut self) -> (r: Result<(), String>)
        ensures
            final(self)@ == spec_consume(old(self)@).0,
            unit_result_view(r) == spec_consume(old(self)@).1,
    {
        if self.acc.len() > 0 {
            if self.is_import {
                return Err(import_path_err(&self.loc, &self.acc));
            }
            if chars_eq_str(&self.acc, "import") {
                self.is_import = true;
            } else {
                let kw = keyword_token(&self.acc);
                match kw {
                    Some(tok) => {
                        self.push_tok(tok);
                    }
                    None => {
                        if is_valid_id(&self.acc) {
                            let id = chars_to_string(&self.acc);
                            self.push_tok(Token::Identifier(id));
                        } else {
                            return Err(unknown_id_err(&self.acc, &self.loc));
                        }
                    }
                }
            }
            self.loc.col = sat_add_usize(self.loc.col, self.acc.len());
            self.acc.clear();
            assert(final(self)@ =~= spec_consume(old(self)@).0);
            Ok(())
        } else {
            Ok(())
        }
    }

    /// Pushes another character for the lexer to process; a completed
    /// import request is handed back to the caller.
    pub fn push(&mut self, chr: char) -> (r: Result<Option<(String, TokenLoc)>, String>)
        ensures
            final(self)@ == spec_push(old(self)@, chr).0,
            push_result_view(r) == spec_push(old(self)@, chr).1,
    {
        if self.is_comment {
            if chr == '\n' {
                self.is_comment = false;
                self.loc.col = 1;
                self.loc.line = sat_add_usize(self.loc.line, 1);
                assert(final(self)@ =~= spec_push(old(self)@, chr).0);
            }
            Ok(None)
        } else if self.in_quotes {
            if chr == '\'' {
                let was_import = self.is_import;
                let path = chars_to_string(&self.acc);
                let loc = self.loc.clone();
                if !was_import {
                    self.push_tok(Token::Symbol(path.clone()));
                }
                self.in_quotes = false;
                self.is_import = false;
                self.loc.col = sat_add_usize(self.loc.col, sat_add_usize(self.acc.len(), 2));
                self.acc.clear();
                if was_import {
                    assert(final(self)@ =~= spec_push(old(self)@, chr).0);
                    Ok(Some((path, loc)))
                } else {
                    assert(final(self)@ =~= spec_push(old(self)@, chr).0);
                    Ok(None)
                }
            } else if chr == '\n' {
                Err(newline_err(&self.loc))
            } else {
                self.acc.push(chr);
                Ok(None)
            }
        } else if chr == '\'' {
            let r = self.consume();
            match r {
                Err(e) => {
                    return Err(e);
                }
                Ok(_) => {}
            }
            self.in_quotes = true;
            assert(final(self)@ =~= spec_push(old(self)@, chr).0);
            Ok(None)
        } else if chr == '#' {
            self.is_comment = true;
            Ok(None)
        } else if char_is_whitespace(chr) {
            let r = self.consume();
            match r {
                Err(e) => {
                    return Err(e);
                }
                Ok(_) => {}
            }
            if chr == '\n' {
                self.loc.col = 1;
                self.loc.line = sat_add_usize(self.loc.line, 1);
                assert(final(self)@ =~= spec_push(old(self)@, chr).0);
            } else {
                self.loc.col = sat_add_usize(self.loc.col, 1);
                assert(final(self)@ =~= spec_push(old(self)@, chr).0);
            }
            Ok(None)
        } else {
            let p = punct_token(chr);
            match p {
                Some(tok) => {
                    let r = self.consume();
                    match r {
                        Err(e) => {
                            return Err(e);
                        }
                        Ok(_) => {}
                    }
                    self.push_tok(tok);
                    self.loc.col = sat_add_usize(self.loc.col, 1);
                    assert(final(self)@ =~= spec_push(old(self)@, chr).0);
                    Ok(None)
                }
                None => {
                    self.acc.push(chr);
                    Ok(None)
                }
            }
        }
    }
}

/// The first library entry under the given name.
pub open spec fn spec_lib_lookup(lib: Seq<(Seq<char>, Seq<char>)>, path: Seq<char>) -> Option<
    Seq<char>,
>
    decreases lib.len(),
{
    if lib.len() == 0 {
        None
    } else if lib[0].0 == path {
        Some(lib[0].1)
    } else {
        spec_lib_lookup(lib.drop_first(), path)
    }
}

#[verifier::loop_isolation(false)]
fn lib_lookup(lib: &Vec<(String, String)>, path: &String) -> (r: Option<String>)
    ensures
        match r {
            Some(c) => spec_lib_lookup(pairs_view(lib@), path@) == Some(c@),
            None => spec_lib_lookup(pairs_view(lib@), path@) is None,
        },
{
    broadcast use lemma_pairs_view_len, lemma_pairs_view_index;

    let ghost lv = pairs_view(lib@);
    proof {
        assert(lv.subrange(0, lv.len() as int) =~= lv);
    }
    let mut i: usize = 0;
    while i < lib.len()
        invariant
            i <= lib@.len(),
            lv == pairs_view(lib@),
            spec_lib_lookup(lv, path@) == spec_lib_lookup(
                lv.subrange(i as int, lv.len() as int),
                path@,
            ),
        decreases lib@.len() - i,
    {
        proof {
            let suffix = lv.subrange(i as int, lv.len() as int);
            assert(suffix[0] == (lib@[i as int].0@, lib@[i as int].1@));
            assert(suffix.drop_first() =~= lv.subrange(i + 1, lv.len() as int));
        }
        if lib[i].0 == *path {
            proof {
                let suffix = lv.subrange(i as int, lv.len() as int);
                assert(spec_lib_lookup(suffix, path@) == Some(lv[i as int].1));
            }
            return Some(lib[i].1.clone());
        }
        i = i + 1;
    }
    proof {
        assert(lv.subrange(lv.len() as int, lv.len() as int).len() == 0);
    }
    None
}

/// The model of the tokens `tokenize` returns.
pub open spec fn toks_result_view(r: Result<Vec<(Token, TokenLoc)>, String>) -> Result<
    Seq<(TokenV, LocV)>,
    Seq<char>,
> {
    match r {
        Ok(v) => Ok(pairs_view(v@)),
        Err(s) => Err(s@),
    }
}

/// Runs the lexer over `src` from position `i` with state `st`; an import
/// request looks its path up in the library and splices the tokens in.
pub open spec fn spec_run(
    st: LexV,
    src: Seq<char>,
    i: int,
    lib: Seq<(Seq<char>, Seq<char>)>,
    depth: nat,
) -> Result<Seq<(TokenV, LocV)>, Seq<char>>
    decreases depth, src.len() - i,
{
    if i < 0 || i >= src.len() {
        let (st2, r) = spec_consume(st);
        if r is Err {
            Err(r->Err_0)
        } else {
            Ok(st2.toks)
        }
    } else {
        let (st2, pr) = spec_push(st, src[i]);
        match pr {
            Err(e) => Err(e),
            Ok(None) => spec_run(st2, src, i + 1, lib, depth),
            Ok(Some((path, loc))) => match spec_lib_lookup(lib, path) {
                None => Err(import_err_text(path, loc)),
                Some(content) => {
                    if depth == 0 {
                        Err(import_err_text(path, loc))
                    } else {
                        match spec_tokenize(content, lib, Some(path), (depth - 1) as nat) {
                            Err(e) => Err(e),
                            Ok(toks) => spec_run(
                                LexV { toks: st2.toks + toks, ..st2 },
                                src,
                                i + 1,
                                lib,
                                depth,
                            ),
                        }
                    }
                }
            },
        }
    }
}

/// What tokenizing a text means: run the lexer over every character from a
/// fresh state and consume what remains.
pub open spec fn spec_tokenize(
    src: Seq<char>,
    lib: Seq<(Seq<char>, Seq<char>)>,
    import_name: Option<Seq<char>>,
    depth: nat,
) -> Result<Seq<(TokenV, LocV)>, Seq<char>>
    decreases depth, src.len() + 1,
{
    spec_run(spec_new_state(import_name), src, 0, lib, depth)
}

#[verifier::loop_isolation(false)]
fn tokenize_go(
    chars: &Vec<char>,
    lib: &Vec<(String, String)>,
    import_name: Option<String>,
    depth: usize,
) -> (r: Result<Vec<(Token, TokenLoc)>, String>)
    ensures
        toks_result_view(r) == spec_tokenize(
            chars@,
            pairs_view(lib@),
            match import_name {
                Some(s) => Some(s@),
                None => None,
            },
            depth as nat,
        ),
    decreases depth,
{
    let ghost libv = pairs_view(lib@);
    let mut st = LexState::new(import_name);
    proof {
        assert(st@ =~= spec_new_state(
            match import_name {
                Some(s) => Some(s@),
                None => None,
            },
        ));
    }
    let mut i: usize = 0;
    while i < chars.len()
        invariant
            i <= chars@.len(),
            libv == pairs_view(lib@),
            spec_tokenize(
                chars@,
                libv,
                match import_name {
                    Some(s) => Some(s@),
                    None => None,
                },
                depth as nat,
            ) == spec_run(st@, chars@, i as int, libv, depth as nat),
        decreases chars@.len() - i,
    {
        let c = chars[i];
        let ghost pre = st@;
        let pr = st.push(c);
        match pr {
            Err(e) => {
                return Err(e);
            }
            Ok(None) => {}
            Ok(Some((path, loc))) => {
                let content = lib_lookup(lib, &path);
                match content {
                    None => {
                        return Err(import_err(&path, &loc));
                    }
                    Some(content) => {
                        if depth == 0 {
                            return Err(import_err(&path, &loc));
                        }
                        let sub_chars = str_chars(content.as_str());
                        let sub = tokenize_go(&sub_chars, lib, Some(path), depth - 1);
                        match sub {
                            Err(e) => {
                                return Err(e);
                            }
                            Ok(toks) => {
                                st.extend_toks(toks);
                            }
                        }
                    }
                }
            }
        }
        i = i + 1;
    }
    let r = st.consume();
    match r {
        Err(e) => Err(e),
        Ok(_) => {
            let LexState { toks, .. } = st;
            Ok(toks)
        }
    }
}

impl LexState {
    /// Appends already-lexed tokens, as an import splices a library file in.
    #[verifier::loop_isolation(false)]
    pub fn extend_toks(&mut self, mut toks: Vec<(Token, TokenLoc)>)
        ensures
            final(self)@ == (LexV { toks: old(self)@.toks + pairs_view(toks@), ..old(self)@ }),
    {
        broadcast use lemma_pairs_view_len, lemma_pairs_view_index;

        let ghost tv = pairs_view(toks@);
        let n = toks.len();
        let mut i: usize = 0;
        while i < n
            invariant
                i <= n,
                n == toks@.len(),
                tv == pairs_view(toks@),
                tv.len() == n,
                pairs_view(self.toks@) == old(self)@.toks + tv.subrange(0, i as int),
                self.loc == old(self).loc,
                self.acc == old(self).acc,
                self.in_quotes == old(self).in_quotes,
                self.is_import == old(self).is_import,
                self.is_comment == old(self).is_comment,
            decreases n - i,
        {
            let ghost pre = self.toks@;
            let pair = (toks[i].0.clone(), toks[i].1.clone());
            self.toks.push(pair);
            proof {
                assert(self.toks@.drop_last() =~= pre);
                assert(pairs_view(self.toks@) =~= old(self)@.toks + tv.subrange(0, i + 1));
            }
            i = i + 1;
        }
        proof {
            assert(tv.subrange(0, tv.len() as int) =~= tv);
            assert(final(self)@ =~= LexV { toks: old(self)@.toks + tv, ..old(self)@ });
        }
    }
}

/// Converts a string into a vector of tokens. Any import expression is
/// replaced with the tokens of the library entry of that name; `lib` maps
/// entry names to their source text.
pub fn tokenize(src: &str, lib: &Vec<(String, String)>, import_name: Option<String>) -> (r: Result<
    Vec<(Token, TokenLoc)>,
    String,
>)
    ensures
        toks_result_view(r) == spec_tokenize(
            src@,
            pairs_view(lib@),
            match import_name {
                Some(s) => Some(s@),
                None => None,
            },
            sat_add(lib@.len() as nat, 1),
        ),
{
    let chars = str_chars(src);
    let depth = sat_add_usize(lib.len(), 1);
    tokenize_go(&chars, lib, import_name, depth)
}

} // verus!
