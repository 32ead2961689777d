//! The configuration format: `name = "value"` lines (`:` may stand for
//! `=`), lists `[...]`, nested maps `{...}`, and `//` comments. Every
//! string is quoted, with `\` escapes. The parsed values are those of the
//! description format.

use vstd::prelude::*;
use crate::description::{
    elements_model, has_name, lemma_elements_model_push, lemma_params_model_push, params_model,
    value_model, Dict, List, ParameterValue, Value,
};
use crate::text::{push_decimal, push_str, string_of};

verus! {

broadcast use vstd::std_specs::vec::group_vec_axioms, vstd::seq::group_seq_axioms;

/// Where the reading stands: how many characters were taken, the last one
/// (`'\0'` past the end), the line (from one) and where it begins.
pub ghost struct CState {
    pub pos: int,
    pub line: int,
    pub line_begin: int,
    pub ch: char,
}

/// Takes the next character.
pub open spec fn take(t: Seq<char>, s: CState) -> CState {
    if 0 <= s.pos < t.len() {
        let c = t[s.pos];
        CState {
            pos: s.pos + 1,
            ch: c,
            line: if c == '\n' && s.line < usize::MAX {
                s.line + 1
            } else {
                s.line
            },
            line_begin: if c == '\n' {
                s.pos
            } else {
                s.line_begin
            },
        }
    } else {
        CState { ch: '\0', ..s }
    }
}

pub open spec fn measure(t: Seq<char>, s: CState) -> int {
    2 * (t.len() - s.pos) + if s.ch != '\0' {
        1int
    } else {
        0int
    }
}

/// Takes characters up to a line break or the end.
pub open spec fn skip_line(t: Seq<char>, s: CState) -> CState
    decreases measure(t, s),
{
    if s.ch == '\n' || s.ch == '\0' || s.pos < 0 || s.pos > t.len() {
        s
    } else {
        skip_line(t, take(t, s))
    }
}

/// Passes over blanks and comments; `None` on a `/` that starts no comment.
pub open spec fn skip_blanks(t: Seq<char>, s: CState) -> Option<CState>
    decreases measure(t, s),
{
    if s.pos < 0 || s.pos > t.len() {
        None
    } else if s.ch == ' ' || s.ch == '\t' {
        skip_blanks(t, take(t, s))
    } else if s.ch == '/' {
        let s1 = take(t, s);
        if s1.ch != '/' {
            None
        } else {
            Some(skip_line(t, s1))
        }
    } else {
        Some(s)
    }
}

/// What an escape stands for.
pub open spec fn unescape(c: char) -> char {
    if c == 'n' {
        '\n'
    } else {
        c
    }
}

/// The rest of a string opened by `quote`, and where it closes.
pub open spec fn quoted(t: Seq<char>, s: CState, quote: char, acc: Seq<char>, escaped: bool) -> Option<
    (Seq<char>, CState),
>
    decreases t.len() - s.pos,
{
    if s.pos < 0 || s.pos >= t.len() {
        None
    } else {
        let s1 = take(t, s);
        let c = s1.ch;
        if c == '\0' {
            None
        } else if escaped {
            quoted(t, s1, quote, acc.push(unescape(c)), false)
        } else if c == quote {
            Some((acc, s1))
        } else if c == '\\' {
            quoted(t, s1, quote, acc, true)
        } else if c == '\n' {
            None
        } else {
            quoted(t, s1, quote, acc.push(c), false)
        }
    }
}

pub ghost enum CLex {
    EOF,
    String(Seq<char>),
    Assign,
    Comma,
    NewLine,
    Bracket(char),
}

/// One lexeme and where the reading stands after it; `None` on an error.
pub open spec fn clex(t: Seq<char>, s: CState) -> Option<(CLex, CState)> {
    match skip_blanks(t, take(t, s)) {
        None => None,
        Some(s2) => {
            let c = s2.ch;
            if c == '\n' {
                Some((CLex::NewLine, s2))
            } else if c == '\0' {
                Some((CLex::EOF, s2))
            } else if c == ':' || c == '=' {
                Some((CLex::Assign, s2))
            } else if c == ',' {
                Some((CLex::Comma, s2))
            } else if c == '{' || c == '}' || c == '[' || c == ']' {
                Some((CLex::Bracket(c), s2))
            } else if c == '"' || c == '\'' {
                match quoted(t, s2, c, Seq::empty(), false) {
                    Some((v, s3)) => Some((CLex::String(v), s3)),
                    None => None,
                }
            } else {
                None
            }
        },
    }
}

proof fn lemma_take(t: Seq<char>, s: CState)
    requires
        0 <= s.pos <= t.len(),
    ensures
        s.pos <= take(t, s).pos <= t.len(),
        measure(t, take(t, s)) < measure(t, s) || (take(t, s).ch == '\0' && s.ch == '\0'
            && take(t, s).pos == s.pos),
{
}

proof fn lemma_skip_line(t: Seq<char>, s: CState)
    requires
        0 <= s.pos <= t.len(),
    ensures
        s.pos <= skip_line(t, s).pos <= t.len(),
    decreases measure(t, s),
{
    if !(s.ch == '\n' || s.ch == '\0') {
        lemma_take(t, s);
        lemma_skip_line(t, take(t, s));
    }
}

proof fn lemma_skip_blanks(t: Seq<char>, s: CState)
    requires
        0 <= s.pos <= t.len(),
    ensures
        skip_blanks(t, s) matches Some(s2) ==> s.pos <= s2.pos <= t.len(),
    decreases measure(t, s),
{
    if s.ch == ' ' || s.ch == '\t' {
        lemma_take(t, s);
        lemma_skip_blanks(t, take(t, s));
    } else if s.ch == '/' {
        lemma_take(t, s);
        lemma_skip_line(t, take(t, s));
    }
}

proof fn lemma_quoted(t: Seq<char>, s: CState, quote: char, acc: Seq<char>, escaped: bool)
    requires
        0 <= s.pos <= t.len(),
    ensures
        quoted(t, s, quote, acc, escaped) matches Some((v, s2)) ==> s.pos < s2.pos <= t.len(),
    decreases t.len() - s.pos,
{
    if 0 <= s.pos < t.len() {
        let s1 = take(t, s);
        let c = s1.ch;
        if c == '\0' {
        } else if escaped {
            lemma_quoted(t, s1, quote, acc.push(unescape(c)), false);
        } else if c == quote {
        } else if c == '\\' {
            lemma_quoted(t, s1, quote, acc, true);
        } else if c == '\n' {
        } else {
            lemma_quoted(t, s1, quote, acc.push(c), false);
        }
    }
}

/// A lexeme other than the end of input takes at least one character.
pub proof fn lemma_clex_progress(t: Seq<char>, s: CState)
    requires
        0 <= s.pos <= t.len(),
    ensures
        clex(t, s) matches Some((l, s2)) ==> s.pos <= s2.pos <= t.len() && (l != CLex::EOF ==> s.pos
            < s2.pos),
{
    lemma_take(t, s);
    lemma_skip_blanks(t, take(t, s));
    match skip_blanks(t, take(t, s)) {
        Some(s2) => {
            if s2.ch == '"' || s2.ch == '\'' {
                lemma_quoted(t, s2, s2.ch, Seq::empty(), false);
            }
        },
        None => {},
    }
}

pub struct TextCursor {
    pub text: Vec<char>,
    pub pos: usize,
    pub lineBegin: usize,
    pub line: usize,
    pub ch: char,
}

pub open spec fn cstate(c: TextCursor) -> CState {
    CState { pos: c.pos as int, line: c.line as int, line_begin: c.lineBegin as int, ch: c.ch }
}

impl TextCursor {
    pub open spec fn wf(&self) -> bool {
        self.pos <= self.text@.len()
    }

    pub fn new(text: &String) -> (r: TextCursor)
        ensures
            r.wf(),
            r.text@ == text@,
            cstate(r) == (CState { pos: 0, line: 1, line_begin: 0, ch: '\0' }),
    {
        TextCursor {
            text: crate::lexer::chars_of(text.as_str()),
            pos: 0,
            lineBegin: 0,
            line: 1,
            ch: '\0',
        }
    }

    /// Takes the next character, `'\0'` past the end.
    pub fn next(&mut self) -> (r: char)
        requires
            old(self).wf(),
        ensures
            final(self).wf(),
            final(self).text@ == old(self).text@,
            cstate(*final(self)) == take(old(self).text@, cstate(*old(self))),
            r == final(self).ch,
    {
        if self.pos < self.text.len() {
            let c = self.text[self.pos];
            if c == '\n' {
                self.lineBegin = self.pos;
                if self.line < usize::MAX {
                    self.line = self.line + 1;
                }
            }
            self.pos = self.pos + 1;
            self.ch = c;
        } else {
            self.ch = '\0';
        }
        self.ch
    }
}

/// The text of the line that begins at `lineBegin`.
pub fn getLine(text: &String, lineBegin: usize) -> (r: String)
    ensures
        ({
            let t = text@;
            let from = if lineBegin <= t.len() {
                lineBegin as int
            } else {
                t.len() as int
            };
            r@ == t.subrange(from, crate::lexer::line_end(t, from))
        }),
{
    let t = crate::lexer::chars_of(text.as_str());
    let mut i: usize = if lineBegin <= t.len() {
        lineBegin
    } else {
        t.len()
    };
    let from = i;
    while i < t.len() && t[i] != '\n' && t[i] != '\0'
        invariant
            from <= i <= t@.len(),
            crate::lexer::line_end(t@, from as int) == crate::lexer::line_end(t@, i as int),
        decreases t@.len() - i,
    {
        i = i + 1;
    }
    string_of(vstd::slice::slice_subrange(t.as_slice(), from, i))
}

pub enum Lexeme {
    EOF,
    String(String),
    Assign,
    Comma,
    NewLine,
    Bracket(char),
}

impl View for Lexeme {
    type V = CLex;

    open spec fn view(&self) -> CLex {
        match self {
            Lexeme::EOF => CLex::EOF,
            Lexeme::String(s) => CLex::String(s@),
            Lexeme::Assign => CLex::Assign,
            Lexeme::Comma => CLex::Comma,
            Lexeme::NewLine => CLex::NewLine,
            Lexeme::Bracket(c) => CLex::Bracket(*c),
        }
    }
}

fn line_error(line: usize, message: &str) -> String {
    let mut r = String::new();
    push_str(&mut r, "Line ");
    push_decimal(&mut r, line);
    push_str(&mut r, " : ");
    push_str(&mut r, message);
    r
}

impl Lexeme {
    /// Reads the next lexeme.
    pub fn next(cur: &mut TextCursor) -> (r: Result<Lexeme, String>)
        requires
            old(cur).wf(),
        ensures
            final(cur).wf(),
            final(cur).text@ == old(cur).text@,
            match clex(old(cur).text@, cstate(*old(cur))) {
                Some((l, s)) => r matches Ok(x) && x@ == l && cstate(*final(cur)) == s,
                None => r is Err,
            },
    {
        let ghost t = cur.text@;
        cur.next();
        loop
            invariant
                cur.wf(),
                cur.text@ == t,
                t == old(cur).text@,
                skip_blanks(t, cstate(*cur)) == skip_blanks(t, take(t, cstate(*old(cur)))),
            ensures
                cur.wf(),
                cur.text@ == t,
                t == old(cur).text@,
                skip_blanks(t, take(t, cstate(*old(cur)))) == Some(cstate(*cur)),
            decreases measure(t, cstate(*cur)),
        {
            if cur.ch == ' ' || cur.ch == '\t' {
                proof {
                    lemma_take(t, cstate(*cur));
                }
                cur.next();
            } else if cur.ch == '/' {
                let ghost slash = cstate(*cur);
                if cur.next() != '/' {
                    return Err(line_error(cur.line, "Comment must begin with \"//\""));
                }
                let ghost s1 = cstate(*cur);
                while cur.ch != '\n' && cur.ch != '\0'
                    invariant
                        cur.wf(),
                        cur.text@ == t,
                        t == old(cur).text@,
                        skip_line(t, cstate(*cur)) == skip_line(t, s1),
                        skip_blanks(t, take(t, cstate(*old(cur)))) == Some(skip_line(t, s1)),
                    decreases measure(t, cstate(*cur)),
                {
                    proof {
                        lemma_take(t, cstate(*cur));
                    }
                    cur.next();
                }
                break;
            } else {
                break;
            }
        }
        let c = cur.ch;
        if c == '\n' {
            Ok(Lexeme::NewLine)
        } else if c == '\0' {
            Ok(Lexeme::EOF)
        } else if c == ':' || c == '=' {
            Ok(Lexeme::Assign)
        } else if c == ',' {
            Ok(Lexeme::Comma)
        } else if c == '{' || c == '}' || c == '[' || c == ']' {
            Ok(Lexeme::Bracket(c))
        } else if c == '"' || c == '\'' {
            let mut value: Vec<char> = Vec::new();
            let mut escaped = false;
            let ghost s2 = cstate(*cur);
            loop
                invariant
                    cur.wf(),
                    cur.text@ == t,
                    t == old(cur).text@,
                    c == '"' || c == '\'',
                    s2.ch == c,
                    skip_blanks(t, take(t, cstate(*old(cur)))) == Some(s2),
                    quoted(t, cstate(*cur), c, value@, escaped) == quoted(t, s2, c, Seq::empty(), false),
                decreases t.len() - cur.pos,
            {
                if cur.pos >= cur.text.len() {
                    cur.next();
                    return Err(line_error(cur.line, "Expected the closing quote at the end of string"));
                }
                let ch = cur.next();
                if ch == '\0' {
                    return Err(line_error(cur.line, "Expected the closing quote at the end of string"));
                } else if escaped {
                    value.push(if ch == 'n' {
                        '\n'
                    } else {
                        ch
                    });
                    escaped = false;
                } else if ch == c {
                    return Ok(Lexeme::String(string_of(value.as_slice())));
                } else if ch == '\\' {
                    escaped = true;
                } else if ch == '\n' {
                    return Err(line_error(cur.line, "Expected the closing quote at the end of line"));
                } else {
                    value.push(ch);
                }
            }
        } else {
            Err(line_error(cur.line, "You must write all strings in \"\""))
        }
    }
}

// ---------------------------------------------------------------------------
// The grammar.

pub open spec fn ahead(t: Seq<char>, origin: int, s: CState) -> bool {
    origin < s.pos <= t.len()
}

/// A map up to `ends` (`'\0'` for the end of input, `'}'` for a nested
/// map) whose line is `dict_line`, and where the reading stands after it.
pub open spec fn config_dict(t: Seq<char>, s: CState, ends: char, dict_line: int) -> Option<
    (Value, CState),
>
    decreases t.len() - s.pos, 2nat,
{
    config_dict_items(t, s, ends, dict_line, Seq::empty())
}

pub open spec fn config_dict_items(
    t: Seq<char>,
    s: CState,
    ends: char,
    dict_line: int,
    acc: Seq<(Seq<char>, Value)>,
) -> Option<(Value, CState)>
    decreases t.len() - s.pos, 1nat,
{
    if s.pos < 0 || s.pos > t.len() {
        None
    } else {
        match clex(t, s) {
            Some((CLex::String(name), s1)) => {
                let line = s1.line;
                match clex(t, s1) {
                    Some((CLex::Assign, s2)) => match clex(t, s2) {
                        Some((CLex::Bracket(b), s3)) => if b == '{' && ahead(t, s.pos, s3) {
                            match config_dict(t, s3, '}', line) {
                                Some((v, s4)) => config_dict_rest(t, s.pos, s4, ends, dict_line, acc, name, v),
                                None => None,
                            }
                        } else if b == '[' && ahead(t, s.pos, s3) {
                            match config_list(t, s3, line) {
                                Some((v, s4)) => config_dict_rest(t, s.pos, s4, ends, dict_line, acc, name, v),
                                None => None,
                            }
                        } else {
                            None
                        },
                        Some((CLex::String(v), s3)) => config_dict_rest(
                            t,
                            s.pos,
                            s3,
                            ends,
                            dict_line,
                            acc,
                            name,
                            Value::Str(line, v),
                        ),
                        _ => None,
                    },
                    _ => None,
                }
            },
            Some((CLex::NewLine, s1)) => if ahead(t, s.pos, s1) {
                config_dict_items(t, s1, ends, dict_line, acc)
            } else {
                None
            },
            Some((CLex::EOF, s1)) => Some((Value::Dict(dict_line, acc), s1)),
            _ => None,
        }
    }
}

pub open spec fn config_dict_rest(
    t: Seq<char>,
    origin: int,
    s: CState,
    ends: char,
    dict_line: int,
    acc: Seq<(Seq<char>, Value)>,
    name: Seq<char>,
    v: Value,
) -> Option<(Value, CState)>
    decreases t.len() - origin, 0nat,
{
    if has_name(acc, name) {
        None
    } else {
        let acc2 = acc.push((name, v));
        match clex(t, s) {
            Some((CLex::EOF, s1)) => if ends != '\0' {
                None
            } else {
                Some((Value::Dict(dict_line, acc2), s1))
            },
            Some((CLex::Bracket(b), s1)) => if b == '}' && ends == '}' {
                Some((Value::Dict(dict_line, acc2), s1))
            } else {
                None
            },
            Some((CLex::NewLine, s1)) => if ahead(t, origin, s1) {
                config_dict_items(t, s1, ends, dict_line, acc2)
            } else {
                None
            },
            Some((CLex::Comma, s1)) => if ahead(t, origin, s1) {
                config_dict_items(t, s1, ends, dict_line, acc2)
            } else {
                None
            },
            _ => None,
        }
    }
}

/// A list up to its `]` whose line is `list_line`.
pub open spec fn config_list(t: Seq<char>, s: CState, list_line: int) -> Option<(Value, CState)>
    decreases t.len() - s.pos, 2nat,
{
    config_list_items(t, s, list_line, Seq::empty())
}

pub open spec fn config_list_items(t: Seq<char>, s: CState, list_line: int, acc: Seq<Value>) -> Option<
    (Value, CState),
>
    decreases t.len() - s.pos, 1nat,
{
    if s.pos < 0 || s.pos > t.len() {
        None
    } else {
        let line = s.line;
        match clex(t, s) {
            Some((CLex::Bracket(b), s1)) => if b == '{' && ahead(t, s.pos, s1) {
                match config_dict(t, s1, '}', line) {
                    Some((v, s2)) => config_list_rest(t, s.pos, s2, list_line, acc, v),
                    None => None,
                }
            } else if b == '[' && ahead(t, s.pos, s1) {
                match config_list(t, s1, line) {
                    Some((v, s2)) => config_list_rest(t, s.pos, s2, list_line, acc, v),
                    None => None,
                }
            } else if b == ']' {
                Some((Value::List(list_line, acc), s1))
            } else {
                None
            },
            Some((CLex::String(v), s1)) => config_list_rest(
                t,
                s.pos,
                s1,
                list_line,
                acc,
                Value::Str(line, v),
            ),
            _ => None,
        }
    }
}

pub open spec fn config_list_rest(
    t: Seq<char>,
    origin: int,
    s: CState,
    list_line: int,
    acc: Seq<Value>,
    v: Value,
) -> Option<(Value, CState)>
    decreases t.len() - origin, 0nat,
{
    let acc2 = acc.push(v);
    match clex(t, s) {
        Some((CLex::Bracket(b), s1)) => if b == ']' {
            Some((Value::List(list_line, acc2), s1))
        } else {
            None
        },
        Some((CLex::NewLine, s1)) => if ahead(t, origin, s1) {
            config_list_items(t, s1, list_line, acc2)
        } else {
            None
        },
        Some((CLex::Comma, s1)) => if ahead(t, origin, s1) {
            config_list_items(t, s1, list_line, acc2)
        } else {
            None
        },
        _ => None,
    }
}

/// The whole text as a map.
pub open spec fn config_text(t: Seq<char>) -> Option<Value> {
    match config_dict(t, CState { pos: 0, line: 1, line_begin: 0, ch: '\0' }, '\0', 0) {
        Some((v, _)) => Some(v),
        None => None,
    }
}

fn next_lexeme(cur: &mut TextCursor) -> (r: Result<Lexeme, String>)
    requires
        old(cur).wf(),
    ensures
        final(cur).wf(),
        final(cur).text@ == old(cur).text@,
        match clex(old(cur).text@, cstate(*old(cur))) {
            Some((l, s)) => r matches Ok(x) && x@ == l && cstate(*final(cur)) == s,
            None => r is Err,
        },
        r is Ok ==> old(cur).pos <= final(cur).pos,
        r matches Ok(x) && x@ != CLex::EOF ==> old(cur).pos < final(cur).pos,
{
    proof {
        lemma_clex_progress(old(cur).text@, cstate(*old(cur)));
    }
    Lexeme::next(cur)
}

fn parse_map(cur: &mut TextCursor, endsWith: char, mapLine: usize) -> (r: Result<Dict, String>)
    requires
        old(cur).wf(),
    ensures
        final(cur).wf(),
        final(cur).text@ == old(cur).text@,
        match config_dict(old(cur).text@, cstate(*old(cur)), endsWith, mapLine as int) {
            Some((v, s)) => r matches Ok(d) && value_model(ParameterValue::Dict(d)) == v && cstate(
                *final(cur),
            ) == s && old(cur).pos <= final(cur).pos,
            None => r is Err,
        },
    decreases old(cur).text@.len() - old(cur).pos, 2nat,
{
    let ghost t = cur.text@;
    let mut params: Vec<(String, ParameterValue)> = Vec::new();
    assert(params_model(params@) =~= Seq::<(Seq<char>, Value)>::empty());
    loop
        invariant
            cur.wf(),
            cur.text@ == t,
            t == old(cur).text@,
            old(cur).pos <= cur.pos,
            config_dict_items(t, cstate(*cur), endsWith, mapLine as int, params_model(params@))
                == config_dict(t, cstate(*old(cur)), endsWith, mapLine as int),
        decreases t.len() - cur.pos,
    {
        let ghost s0 = cstate(*cur);
        let ghost acc = params_model(params@);
        let first = match next_lexeme(cur) {
            Ok(l) => l,
            Err(e) => {
                return Err(e);
            },
        };
        match first {
            Lexeme::String(name) => {
                let line = cur.line;
                match next_lexeme(cur) {
                    Ok(Lexeme::Assign) => {},
                    Ok(_) => {
                        return Err(line_error(line, "Expected : or ="));
                    },
                    Err(e) => {
                        return Err(e);
                    },
                }
                let third = match next_lexeme(cur) {
                    Ok(l) => l,
                    Err(e) => {
                        return Err(e);
                    },
                };
                let value = match third {
                    Lexeme::Bracket(b) => {
                        if b == '{' {
                            match parse_map(cur, '}', line) {
                                Ok(d) => ParameterValue::Dict(d),
                                Err(e) => {
                                    return Err(e);
                                },
                            }
                        } else if b == '[' {
                            match parse_list(cur, line) {
                                Ok(l) => ParameterValue::List(l),
                                Err(e) => {
                                    return Err(e);
                                },
                            }
                        } else {
                            return Err(line_error(line, "Value of parameter has been missed"));
                        }
                    },
                    Lexeme::String(v) => ParameterValue::String { line, value: v },
                    _ => {
                        return Err(line_error(line, "Value of parameter has been missed"));
                    },
                };
                let ghost s4 = cstate(*cur);
                let ghost vm = value_model(value);
                assert(config_dict_items(t, s0, endsWith, mapLine as int, acc) == config_dict_rest(
                    t,
                    s0.pos,
                    s4,
                    endsWith,
                    mapLine as int,
                    acc,
                    name@,
                    vm,
                ));
                if crate::description::has_param(&params, &name) {
                    return Err(line_error(line, "Parameter has been declarated before"));
                }
                let ghost item = (name, value);
                proof {
                    lemma_params_model_push(params@, item);
                }
                params.push((name, value));
                match next_lexeme(cur) {
                    Ok(Lexeme::EOF) => {
                        if endsWith != '\0' {
                            return Err(line_error(line, "Expected }, but EOF was found"));
                        }
                        return Ok(Dict { line: mapLine, params });
                    },
                    Ok(Lexeme::Bracket(b)) => {
                        if b == '}' && endsWith == '}' {
                            return Ok(Dict { line: mapLine, params });
                        }
                        return Err(line_error(line, "Expected EOF, but } was found"));
                    },
                    Ok(Lexeme::NewLine) => {},
                    Ok(Lexeme::Comma) => {},
                    Ok(_) => {
                        return Err(line_error(line, "Expected new line or ,"));
                    },
                    Err(e) => {
                        return Err(e);
                    },
                }
            },
            Lexeme::NewLine => {},
            Lexeme::EOF => {
                return Ok(Dict { line: mapLine, params });
            },
            _ => {
                return Err(line_error(cur.line, "Expected parameter name"));
            },
        }
    }
}

fn parse_list(cur: &mut TextCursor, listLine: usize) -> (r: Result<List, String>)
    requires
        old(cur).wf(),
    ensures
        final(cur).wf(),
        final(cur).text@ == old(cur).text@,
        match config_list(old(cur).text@, cstate(*old(cur)), listLine as int) {
            Some((v, s)) => r matches Ok(l) && value_model(ParameterValue::List(l)) == v && cstate(
                *final(cur),
            ) == s && old(cur).pos <= final(cur).pos,
            None => r is Err,
        },
    decreases old(cur).text@.len() - old(cur).pos, 2nat,
{
    let ghost t = cur.text@;
    let mut elements: Vec<ParameterValue> = Vec::new();
    assert(elements_model(elements@) =~= Seq::<Value>::empty());
    loop
        invariant
            cur.wf(),
            cur.text@ == t,
            t == old(cur).text@,
            old(cur).pos <= cur.pos,
            config_list_items(t, cstate(*cur), listLine as int, elements_model(elements@))
                == config_list(t, cstate(*old(cur)), listLine as int),
        decreases t.len() - cur.pos,
    {
        let line = cur.line;
        let first = match next_lexeme(cur) {
            Ok(l) => l,
            Err(e) => {
                return Err(e);
            },
        };
        let elem = match first {
            Lexeme::Bracket(b) => {
                if b == '{' {
                    match parse_map(cur, '}', line) {
                        Ok(d) => ParameterValue::Dict(d),
                        Err(e) => {
                            return Err(e);
                        },
                    }
                } else if b == '[' {
                    match parse_list(cur, line) {
                        Ok(l) => ParameterValue::List(l),
                        Err(e) => {
                            return Err(e);
                        },
                    }
                } else if b == ']' {
                    return Ok(List { line: listLine, elements });
                } else {
                    return Err(line_error(line, "Expected string, list or map"));
                }
            },
            Lexeme::String(v) => ParameterValue::String { line, value: v },
            _ => {
                return Err(line_error(line, "Parameter has been missed"));
            },
        };
        proof {
            lemma_elements_model_push(elements@, elem);
        }
        elements.push(elem);
        match next_lexeme(cur) {
            Ok(Lexeme::Bracket(b)) => {
                if b == ']' {
                    return Ok(List { line: listLine, elements });
                }
                return Err(line_error(cur.line, "Expected new line, , or ]"));
            },
            Ok(Lexeme::NewLine) => {},
            Ok(Lexeme::Comma) => {},
            Ok(_) => {
                return Err(line_error(cur.line, "Expected new line, , or ]"));
            },
            Err(e) => {
                return Err(e);
            },
        }
    }
}

/// Parses `text` in the configuration format and hands the map to
/// `process`.
pub fn parse<T, F: FnOnce(Dict) -> Result<T, String>>(text: &String, process: F) -> (r: Result<T, String>)
    requires
        forall|d: Dict| process.requires((d,)),
    ensures
        match config_text(text@) {
            None => r is Err,
            Some(v) => exists|d: Dict| value_model(ParameterValue::Dict(d)) == v && process.ensures((d,), r),
        },
{
    let mut cur = TextCursor::new(text);
    match parse_map(&mut cur, '\0', 0) {
        Ok(root) => process(root),
        Err(e) => Err(e),
    }
}

} // verus!
