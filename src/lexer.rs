//! A lexer for the description format: words, quoted strings, `=`, `:`,
//! `,`, brackets, line breaks, `//` and `/* */` comments, and blanks.
//!
//! Positions count characters. The character past the end reads as `'\0'`,
//! and so does a NUL in the text: either ends the input.

use vstd::prelude::*;
use crate::text::{decimal, push_char, push_decimal, push_str, string_of};

verus! {

broadcast use vstd::string::axiom_spec_iter;

/// The characters of `s`.
pub fn chars_of(s: &str) -> (r: Vec<char>)
    ensures
        r@ == s@,
{
    let mut r: Vec<char> = Vec::new();
    for c in it: s.chars()
        invariant
            r@ == it.seq().subrange(0, it.index() as int),
    {
        r.push(c);
    }
    r
}

/// Whether a character has the Unicode `Alphabetic` property.
pub uninterp spec fn alphabetic(c: char) -> bool;

/// Relies on `char::is_alphabetic`: whether `c` has the Unicode
/// `Alphabetic` property, a fact of `c` alone.
#[verifier::external_body]
fn is_alphabetic(c: char) -> (r: bool)
    ensures
        r == alphabetic(c),
{
    c.is_alphabetic()
}

/// A character that belongs in a word: a letter, a decimal digit or a dot.
pub open spec fn word_char(c: char) -> bool {
    alphabetic(c) || ('0' <= c && c <= '9') || c == '.'
}

fn is_word_char(c: char) -> (r: bool)
    ensures
        r == word_char(c),
{
    is_alphabetic(c) || (c >= '0' && c <= '9') || c == '.'
}

pub enum Lexeme {
    EOF,
    String(String),
    Eq,
    Colon,
    Comma,
    NewLine,
    Bracket(char),
}

pub ghost enum Lex {
    EOF,
    String(Seq<char>),
    Eq,
    Colon,
    Comma,
    NewLine,
    Bracket(char),
}

impl View for Lexeme {
    type V = Lex;

    open spec fn view(&self) -> Lex {
        match self {
            Lexeme::EOF => Lex::EOF,
            Lexeme::String(s) => Lex::String(s@),
            Lexeme::Eq => Lex::Eq,
            Lexeme::Colon => Lex::Colon,
            Lexeme::Comma => Lex::Comma,
            Lexeme::NewLine => Lex::NewLine,
            Lexeme::Bracket(c) => Lex::Bracket(*c),
        }
    }
}

impl Lexeme {
    pub fn duplicate(&self) -> (r: Lexeme)
        ensures
            r@ == self@,
    {
        match self {
            Lexeme::EOF => Lexeme::EOF,
            Lexeme::String(s) => Lexeme::String(s.clone()),
            Lexeme::Eq => Lexeme::Eq,
            Lexeme::Colon => Lexeme::Colon,
            Lexeme::Comma => Lexeme::Comma,
            Lexeme::NewLine => Lexeme::NewLine,
            Lexeme::Bracket(c) => Lexeme::Bracket(*c),
        }
    }

    /// The lexeme as an error message shows it.
    pub fn print(&self) -> (r: String)
        ensures
            r@ == match self@ {
                Lex::EOF => "EOF"@,
                Lex::String(s) => seq!['"'] + s + seq!['"'],
                Lex::Eq => "'='"@,
                Lex::Colon => "':'"@,
                Lex::Comma => "','"@,
                Lex::NewLine => "'new line'"@,
                Lex::Bracket(b) => seq![b],
            },
    {
        let mut r = String::new();
        match self {
            Lexeme::EOF => push_str(&mut r, "EOF"),
            Lexeme::String(s) => {
                push_char(&mut r, '"');
                push_str(&mut r, s.as_str());
                push_char(&mut r, '"');
            },
            Lexeme::Eq => push_str(&mut r, "'='"),
            Lexeme::Colon => push_str(&mut r, "':'"),
            Lexeme::Comma => push_str(&mut r, "','"),
            Lexeme::NewLine => push_str(&mut r, "'new line'"),
            Lexeme::Bracket(b) => push_char(&mut r, *b),
        }
        assert(r@ =~= match self@ {
            Lex::EOF => "EOF"@,
            Lex::String(s) => seq!['"'] + s + seq!['"'],
            Lex::Eq => "'='"@,
            Lex::Colon => "':'"@,
            Lex::Comma => "','"@,
            Lex::NewLine => "'new line'"@,
            Lex::Bracket(b) => seq![b],
        });
        r
    }
}

// ---------------------------------------------------------------------------
// The lexing of one lexeme, as a function of the text and a position.

/// Where the reading stands: the current character, the line it is on
/// (from one), and where that line begins.
pub ghost struct LexPos {
    pub idx: int,
    pub line_number: int,
    pub line_begin: int,
}

/// One step of the lexer: the lexeme with the position and line where it
/// starts and the position after it, or an error.
pub ghost enum LexResult {
    Lexed { lex: Lex, pos: int, line: int, after: LexPos },
    Failed,
}

pub open spec fn char_at(t: Seq<char>, i: int) -> char {
    if 0 <= i < t.len() {
        t[i]
    } else {
        '\0'
    }
}

/// The end of the word that starts at `i`.
pub open spec fn word_end(t: Seq<char>, i: int) -> int
    decreases t.len() - i,
{
    if 0 <= i < t.len() && word_char(t[i]) {
        word_end(t, i + 1)
    } else {
        i
    }
}

/// The line count and line start after passing over the character at `i`.
pub open spec fn pass(t: Seq<char>, p: LexPos) -> LexPos {
    if char_at(t, p.idx) == '\n' {
        LexPos {
            idx: p.idx + 1,
            line_number: if p.line_number < usize::MAX {
                p.line_number + 1
            } else {
                p.line_number
            },
            line_begin: p.idx + 1,
        }
    } else {
        LexPos { idx: p.idx + 1, ..p }
    }
}

/// Passes over characters up to the first `stop`; `None` if the input
/// ends first.
pub open spec fn scan_to(t: Seq<char>, p: LexPos, stop: char) -> Option<LexPos>
    decreases t.len() - p.idx,
{
    if p.idx < 0 || p.idx >= t.len() {
        None
    } else if t[p.idx] == stop {
        Some(p)
    } else if t[p.idx] == '\0' {
        None
    } else {
        scan_to(t, pass(t, p), stop)
    }
}

/// The first line break or end of input from `i` on.
pub open spec fn line_end(t: Seq<char>, i: int) -> int
    decreases t.len() - i,
{
    if 0 <= i < t.len() && t[i] != '\n' && t[i] != '\0' {
        line_end(t, i + 1)
    } else {
        i
    }
}

pub open spec fn blank(c: char) -> bool {
    c == ' ' || c == '\t' || c == '\r'
}

/// The first character from `i` on that is no blank.
pub open spec fn blank_end(t: Seq<char>, i: int) -> int
    decreases t.len() - i,
{
    if 0 <= i < t.len() && blank(t[i]) {
        blank_end(t, i + 1)
    } else {
        i
    }
}

pub open spec fn lex(t: Seq<char>, p: LexPos) -> LexResult
    decreases t.len() - p.idx,
{
    let c = char_at(t, p.idx);
    let one = LexPos { idx: p.idx + 1, ..p };
    if p.idx < 0 || p.idx > t.len() {
        LexResult::Failed
    } else if word_char(c) && p.idx < t.len() {
        let e = word_end(t, p.idx);
        LexResult::Lexed {
            lex: Lex::String(t.subrange(p.idx, e)),
            pos: p.idx,
            line: p.line_number,
            after: LexPos { idx: e, ..p },
        }
    } else if c == '\0' {
        LexResult::Lexed { lex: Lex::EOF, pos: p.idx, line: p.line_number, after: p }
    } else if c == '\n' {
        LexResult::Lexed { lex: Lex::NewLine, pos: p.idx, line: p.line_number, after: pass(t, p) }
    } else if c == '{' || c == '}' || c == '[' || c == ']' {
        LexResult::Lexed { lex: Lex::Bracket(c), pos: p.idx, line: p.line_number, after: one }
    } else if c == '=' {
        LexResult::Lexed { lex: Lex::Eq, pos: p.idx, line: p.line_number, after: one }
    } else if c == ':' {
        LexResult::Lexed { lex: Lex::Colon, pos: p.idx, line: p.line_number, after: one }
    } else if c == ',' {
        LexResult::Lexed { lex: Lex::Comma, pos: p.idx, line: p.line_number, after: one }
    } else if c == '"' || c == '\'' {
        match scan_to(t, one, c) {
            Some(q) => LexResult::Lexed {
                lex: Lex::String(t.subrange(p.idx + 1, q.idx)),
                pos: p.idx + 1,
                line: p.line_number,
                after: LexPos { idx: q.idx + 1, ..q },
            },
            None => LexResult::Failed,
        }
    } else if c == '/' {
        if char_at(t, p.idx + 1) == '/' {
            let e = line_end(t, p.idx + 2);
            if p.idx < e <= t.len() {
                lex(t, LexPos { idx: e, ..p })
            } else {
                LexResult::Failed
            }
        } else if char_at(t, p.idx + 1) == '*' {
            match scan_to(t, LexPos { idx: p.idx + 2, ..p }, '*') {
                Some(q) => if char_at(t, q.idx + 1) == '/' && p.idx < q.idx + 2 <= t.len() {
                    lex(t, LexPos { idx: q.idx + 2, ..q })
                } else {
                    LexResult::Failed
                },
                None => LexResult::Failed,
            }
        } else {
            LexResult::Failed
        }
    } else if blank(c) {
        let e = blank_end(t, p.idx);
        if p.idx < e <= t.len() {
            lex(t, LexPos { idx: e, ..p })
        } else {
            LexResult::Failed
        }
    } else {
        LexResult::Failed
    }
}

/// The end of the line of text that starts at `i`: its line break, or the
/// end of the text.
pub open spec fn line_text_end(t: Seq<char>, i: int) -> int
    decreases t.len() - i,
{
    if 0 <= i < t.len() && t[i] != '\n' {
        line_text_end(t, i + 1)
    } else {
        i
    }
}

pub struct Cursor {
    pub text: Vec<char>,
    pub curPos: usize,
    pub curChar: char,
    pub lineNumber: usize,
    pub lineBegin: usize,
    pub line: usize,
    pub pos: usize,
    pub lex: Lexeme,
}

impl Cursor {
    pub open spec fn at(&self) -> LexPos {
        LexPos {
            idx: self.curPos as int,
            line_number: self.lineNumber as int,
            line_begin: self.lineBegin as int,
        }
    }

    pub open spec fn wf(&self) -> bool {
        &&& self.curPos <= self.text@.len()
        &&& self.curChar == char_at(self.text@, self.curPos as int)
        &&& 1 <= self.lineNumber
        &&& self.lineBegin <= self.curPos
    }

    /// A cursor on the first character of `text`, on line one.
    pub fn new(text: &str) -> (r: Cursor)
        ensures
            r.wf(),
            r.text@ == text@,
            r.at() == (LexPos { idx: 0, line_number: 1, line_begin: 0 }),
            r.lex@ == Lex::EOF,
            r.line == 0,
            r.pos == 0,
    {
        let chars = chars_of(text);
        let first = if chars.len() > 0 {
            chars[0]
        } else {
            '\0'
        };
        Cursor {
            text: chars,
            curPos: 0,
            curChar: first,
            lineNumber: 1,
            lineBegin: 0,
            line: 0,
            pos: 0,
            lex: Lexeme::EOF,
        }
    }

    /// The line that the cursor is on, for error messages.
    pub fn printLine(&self) -> (r: String)
        requires
            self.wf(),
        ensures
            r@ == "Line: "@ + decimal(self.lineNumber as nat) + " ; "@ + self.text@.subrange(
                self.lineBegin as int,
                line_text_end(self.text@, self.lineBegin as int),
            ) + " \n"@,
    {
        let mut r = String::new();
        push_str(&mut r, "Line: ");
        push_decimal(&mut r, self.lineNumber);
        push_str(&mut r, " ; ");
        let mut i: usize = self.lineBegin;
        while i < self.text.len() && self.text[i] != '\n'
            invariant
                self.wf(),
                self.lineBegin <= i <= self.text@.len(),
                line_text_end(self.text@, self.lineBegin as int) == line_text_end(
                    self.text@,
                    i as int,
                ),
                r@ == "Line: "@ + decimal(self.lineNumber as nat) + " ; "@ + self.text@.subrange(
                    self.lineBegin as int,
                    i as int,
                ),
            decreases self.text@.len() - i,
        {
            push_char(&mut r, self.text[i]);
            i = i + 1;
            assert(self.text@.subrange(self.lineBegin as int, i as int) =~= self.text@.subrange(
                self.lineBegin as int,
                i - 1,
            ).push(self.text@[i - 1]));
        }
        push_str(&mut r, " \n");
        r
    }

    fn error(&self, message: &str) -> (r: String)
        requires
            self.wf(),
    {
        let mut r = self.printLine();
        push_str(&mut r, message);
        r
    }

    /// Moves to the next character, without counting lines.
    fn nextChar(&mut self)
        requires
            old(self).wf(),
            old(self).curPos < old(self).text@.len(),
        ensures
            final(self).wf(),
            final(self).text == old(self).text,
            final(self).curPos == old(self).curPos + 1,
            final(self).lineNumber == old(self).lineNumber,
            final(self).lineBegin == old(self).lineBegin,
            final(self).line == old(self).line,
            final(self).pos == old(self).pos,
            final(self).lex == old(self).lex,
    {
        let len = self.text.len();
        self.curPos = self.curPos + 1;
        self.curChar = if self.curPos < len {
            self.text[self.curPos]
        } else {
            '\0'
        };
    }

    /// Passes over the current character, counting it if it breaks the line.
    fn passChar(&mut self)
        requires
            old(self).wf(),
            old(self).curPos < old(self).text@.len(),
        ensures
            final(self).wf(),
            final(self).text == old(self).text,
            final(self).at() == pass(old(self).text@, old(self).at()),
            final(self).line == old(self).line,
            final(self).pos == old(self).pos,
            final(self).lex == old(self).lex,
    {
        let newline = self.curChar == '\n';
        let at = self.curPos;
        self.nextChar();
        if newline {
            self.lineBegin = at + 1;
            if self.lineNumber < usize::MAX {
                self.lineNumber = self.lineNumber + 1;
            }
        }
    }

    /// Reads the next lexeme; `pos` and `line` tell where it starts.
    pub fn next(&mut self) -> (r: Result<Lexeme, String>)
        requires
            old(self).wf(),
        ensures
            final(self).wf(),
            final(self).text@ == old(self).text@,
            match lex(old(self).text@, old(self).at()) {
                LexResult::Lexed { lex, pos, line, after } => {
                    &&& r matches Ok(l) && l@ == lex
                    &&& final(self).lex@ == lex
                    &&& final(self).at() == after
                    &&& final(self).pos == pos
                    &&& final(self).line == line
                },
                LexResult::Failed => r is Err,
            },
    {
        let ghost t = self.text@;
        loop
            invariant
                self.wf(),
                self.text@ == t,
                t == old(self).text@,
                lex(t, self.at()) == lex(t, old(self).at()),
            decreases t.len() - self.curPos,
        {
            self.pos = self.curPos;
            self.line = self.lineNumber;
            let c = self.curChar;
            if self.curPos < self.text.len() && is_word_char(c) {
                let ghost start = self.at();
                while self.curPos < self.text.len() && is_word_char(self.curChar)
                    invariant
                        self.wf(),
                        self.text@ == t,
                        start.idx <= self.curPos,
                        word_end(t, start.idx) == word_end(t, self.curPos as int),
                        self.lineNumber == start.line_number,
                        self.lineBegin == start.line_begin,
                        self.pos == start.idx,
                        self.line == start.line_number,
                    decreases t.len() - self.curPos,
                {
                    self.nextChar();
                }
                let word = string_of(vstd::slice::slice_subrange(
                    self.text.as_slice(),
                    self.pos,
                    self.curPos,
                ));
                self.lex = Lexeme::String(word);
            } else if c == '\0' {
                self.lex = Lexeme::EOF;
            } else if c == '\n' {
                self.lex = Lexeme::NewLine;
                self.passChar();
            } else if c == '{' || c == '}' || c == '[' || c == ']' {
                self.lex = Lexeme::Bracket(c);
                self.nextChar();
            } else if c == '=' {
                self.lex = Lexeme::Eq;
                self.nextChar();
            } else if c == ':' {
                self.lex = Lexeme::Colon;
                self.nextChar();
            } else if c == ',' {
                self.lex = Lexeme::Comma;
                self.nextChar();
            } else if c == '"' || c == '\'' {
                let ghost start = self.at();
                self.nextChar();
                self.pos = self.curPos;
                while self.curChar != c
                    invariant
                        self.wf(),
                        self.text@ == t,
                        start.idx < self.curPos,
                        self.pos == start.idx + 1,
                        self.line == start.line_number,
                        c == '"' || c == '\'',
                        t == old(self).text@,
                        lex(t, start) == lex(t, old(self).at()),
                        !word_char(c),
                        char_at(t, start.idx) == c,
                        0 <= start.idx < t.len(),
                        scan_to(t, LexPos { idx: start.idx + 1, ..start }, c) == scan_to(
                            t,
                            self.at(),
                            c,
                        ),
                    decreases t.len() - self.curPos,
                {
                    if self.curChar == '\0' {
                        return Err(self.error("\nUnexpected EOF"));
                    }
                    self.passChar();
                }
                let s = string_of(vstd::slice::slice_subrange(
                    self.text.as_slice(),
                    self.pos,
                    self.curPos,
                ));
                self.lex = Lexeme::String(s);
                self.nextChar();
            } else if c == '/' {
                let ghost start = self.at();
                self.nextChar();
                if self.curChar == '/' {
                    while self.curPos < self.text.len() && self.curChar != '\n' && self.curChar != '\0'
                        invariant
                            self.wf(),
                            self.text@ == t,
                            start.idx < self.curPos,
                            line_end(t, start.idx + 2) == line_end(t, self.curPos as int),
                            self.lineNumber == start.line_number,
                            self.lineBegin == start.line_begin,
                        decreases t.len() - self.curPos,
                    {
                        self.nextChar();
                    }
                    continue;
                } else if self.curChar == '*' {
                    self.nextChar();
                    while self.curChar != '*'
                        invariant
                            self.wf(),
                            self.text@ == t,
                            start.idx + 2 <= self.curPos,
                            t == old(self).text@,
                            lex(t, start) == lex(t, old(self).at()),
                            !word_char('/'),
                            char_at(t, start.idx) == '/',
                            char_at(t, start.idx + 1) == '*',
                            0 <= start.idx < t.len(),
                            scan_to(t, LexPos { idx: start.idx + 2, ..start }, '*') == scan_to(
                                t,
                                self.at(),
                                '*',
                            ),
                        decreases t.len() - self.curPos,
                    {
                        if self.curChar == '\0' {
                            return Err(self.error("\nUnexpected EOF"));
                        }
                        self.passChar();
                    }
                    self.nextChar();
                    if self.curChar != '/' {
                        return Err(self.error("\n expected '/' at end of multiline comment"));
                    }
                    self.nextChar();
                    continue;
                } else {
                    return Err(self.error("\n unexpected symbal '/'"));
                }
            } else if c == '\r' || c == '\t' || c == ' ' {
                let ghost start = self.at();
                while self.curChar == '\r' || self.curChar == '\t' || self.curChar == ' '
                    invariant
                        self.wf(),
                        self.text@ == t,
                        start.idx <= self.curPos,
                        blank_end(t, start.idx) == blank_end(t, self.curPos as int),
                        self.lineNumber == start.line_number,
                        self.lineBegin == start.line_begin,
                    decreases t.len() - self.curPos,
                {
                    self.nextChar();
                }
                continue;
            } else {
                let mut m = String::new();
                push_str(&mut m, "\n unexpected symbal '");
                push_char(&mut m, c);
                push_char(&mut m, '\'');
                return Err(self.error(m.as_str()));
            }
            return Ok(self.lex.duplicate());
        }
    }
}

proof fn lemma_word_end(t: Seq<char>, i: int)
    requires
        0 <= i <= t.len(),
    ensures
        i <= word_end(t, i) <= t.len(),
    decreases t.len() - i,
{
    if 0 <= i < t.len() && word_char(t[i]) {
        lemma_word_end(t, i + 1);
    }
}

proof fn lemma_scan_to(t: Seq<char>, p: LexPos, stop: char)
    requires
        0 <= p.idx,
    ensures
        scan_to(t, p, stop) matches Some(q) ==> p.idx <= q.idx < t.len() && t[q.idx] == stop,
    decreases t.len() - p.idx,
{
    if p.idx < t.len() && t[p.idx] != stop && t[p.idx] != '\0' {
        lemma_scan_to(t, pass(t, p), stop);
    }
}

proof fn lemma_line_end(t: Seq<char>, i: int)
    requires
        0 <= i <= t.len(),
    ensures
        i <= line_end(t, i) <= t.len(),
    decreases t.len() - i,
{
    if 0 <= i < t.len() && t[i] != '\n' && t[i] != '\0' {
        lemma_line_end(t, i + 1);
    }
}

proof fn lemma_blank_end(t: Seq<char>, i: int)
    requires
        0 <= i <= t.len(),
    ensures
        i <= blank_end(t, i) <= t.len(),
    decreases t.len() - i,
{
    if 0 <= i < t.len() && blank(t[i]) {
        lemma_blank_end(t, i + 1);
    }
}

/// A lexeme other than the end of input moves the position forward, and
/// no lexeme moves it past the end of the text.
pub proof fn lemma_lex_progress(t: Seq<char>, p: LexPos)
    requires
        0 <= p.idx <= t.len(),
    ensures
        lex(t, p) matches LexResult::Lexed { lex, pos, line, after } ==> p.idx <= after.idx
            <= t.len() && (lex != Lex::EOF ==> p.idx < after.idx),
    decreases t.len() - p.idx,
{
    let c = char_at(t, p.idx);
    if word_char(c) && p.idx < t.len() {
        lemma_word_end(t, p.idx + 1);
        assert(word_end(t, p.idx) == word_end(t, p.idx + 1));
    } else if c == '"' || c == '\'' {
        lemma_scan_to(t, LexPos { idx: p.idx + 1, ..p }, c);
    } else if c == '/' {
        if char_at(t, p.idx + 1) == '/' {
            lemma_line_end(t, p.idx + 2);
            let e = line_end(t, p.idx + 2);
            if p.idx < e <= t.len() {
                lemma_lex_progress(t, LexPos { idx: e, ..p });
            }
        } else if char_at(t, p.idx + 1) == '*' {
            lemma_scan_to(t, LexPos { idx: p.idx + 2, ..p }, '*');
            match scan_to(t, LexPos { idx: p.idx + 2, ..p }, '*') {
                Some(q) => if char_at(t, q.idx + 1) == '/' && p.idx < q.idx + 2 <= t.len() {
                    lemma_lex_progress(t, LexPos { idx: q.idx + 2, ..q });
                },
                None => {},
            }
        }
    } else if blank(c) {
        lemma_blank_end(t, p.idx);
        let e = blank_end(t, p.idx);
        if p.idx < e <= t.len() {
            lemma_lex_progress(t, LexPos { idx: e, ..p });
        }
    }
}

} // verus!
