//! The description format: `name = value` lines, where a value is a string,
//! a list `[...]` or a nested map `{...}`. It carries, among others, the
//! identity server's answer.

use vstd::prelude::*;
use crate::lexer::{chars_of, lemma_lex_progress, lex, Cursor, Lex, LexPos, LexResult, Lexeme};
use crate::text::{parse_unsigned, parse_usize, push_decimal, push_str};

verus! {

broadcast use vstd::std_specs::vec::group_vec_axioms, vstd::seq::group_seq_axioms;

pub enum ParameterValue {
    String { line: usize, value: String },
    List(List),
    Dict(Dict),
}

/// The parameters of a map, in the order they were written; no name twice.
pub struct Dict {
    pub line: usize,
    pub params: Vec<(String, ParameterValue)>,
}

pub struct List {
    pub line: usize,
    pub elements: Vec<ParameterValue>,
}

/// A parsed value, with the line it was found on.
pub ghost enum Value {
    Str(int, Seq<char>),
    List(int, Seq<Value>),
    Dict(int, Seq<(Seq<char>, Value)>),
}

pub open spec fn value_model(v: ParameterValue) -> Value
    decreases v,
{
    match v {
        ParameterValue::String { line, value } => Value::Str(line as int, value@),
        ParameterValue::List(l) => Value::List(l.line as int, elements_model(l.elements@)),
        ParameterValue::Dict(m) => Value::Dict(m.line as int, params_model(m.params@)),
    }
}

pub open spec fn elements_model(s: Seq<ParameterValue>) -> Seq<Value>
    decreases s,
{
    if s.len() == 0 {
        Seq::empty()
    } else {
        elements_model(s.drop_last()).push(value_model(s.last()))
    }
}

pub open spec fn params_model(s: Seq<(String, ParameterValue)>) -> Seq<(Seq<char>, Value)>
    decreases s,
{
    if s.len() == 0 {
        Seq::empty()
    } else {
        params_model(s.drop_last()).push((s.last().0@, value_model(s.last().1)))
    }
}

// ---------------------------------------------------------------------------
// The grammar, as functions of the text and the reading position.

/// Where the parser stands: the lexer's position and the line of the last
/// lexeme read.
pub ghost struct PState {
    pub at: LexPos,
    pub line: int,
}

pub open spec fn step(t: Seq<char>, s: PState) -> Option<(Lex, PState)> {
    match lex(t, s.at) {
        LexResult::Lexed { lex, pos, line, after } => Some((lex, PState { at: after, line })),
        LexResult::Failed => None,
    }
}

pub open spec fn has_name(acc: Seq<(Seq<char>, Value)>, name: Seq<char>) -> bool {
    exists|i: int| 0 <= i < acc.len() && acc[i].0 == name
}

pub open spec fn inside(t: Seq<char>, origin: int, s: PState) -> bool {
    origin < s.at.idx <= t.len()
}

/// A map up to `ends` (`'\0'` for the end of input, `'}'` for a nested
/// map), and where the parser stands after it.
pub open spec fn parse_dict(t: Seq<char>, s: PState, ends: char) -> Option<(Value, PState)>
    decreases t.len() - s.at.idx, 2nat,
{
    dict_items(t, s, ends, s.line, Seq::empty())
}

pub open spec fn dict_items(
    t: Seq<char>,
    s: PState,
    ends: char,
    dict_line: int,
    acc: Seq<(Seq<char>, Value)>,
) -> Option<(Value, PState)>
    decreases t.len() - s.at.idx, 1nat,
{
    if s.at.idx < 0 || s.at.idx > t.len() {
        None
    } else {
        match step(t, s) {
            Some((Lex::String(name), s1)) => match step(t, s1) {
                Some((sep, s2)) => if sep is Eq || sep is Colon {
                    match step(t, s2) {
                        Some((Lex::Bracket(b), s3)) => if b == '{' && inside(t, s.at.idx, s3) {
                            match parse_dict(t, s3, '}') {
                                Some((v, s4)) => dict_rest(t, s.at.idx, s4, ends, dict_line, acc, name, v),
                                None => None,
                            }
                        } else if b == '[' && inside(t, s.at.idx, s3) {
                            match parse_list(t, s3) {
                                Some((v, s4)) => dict_rest(t, s.at.idx, s4, ends, dict_line, acc, name, v),
                                None => None,
                            }
                        } else {
                            None
                        },
                        Some((Lex::String(v), s3)) => dict_rest(
                            t,
                            s.at.idx,
                            s3,
                            ends,
                            dict_line,
                            acc,
                            name,
                            Value::Str(s3.line, v),
                        ),
                        _ => None,
                    }
                } else {
                    None
                },
                None => None,
            },
            Some((Lex::NewLine, s1)) => if inside(t, s.at.idx, s1) {
                dict_items(t, s1, ends, dict_line, acc)
            } else {
                None
            },
            Some((Lex::EOF, s1)) => Some((Value::Dict(dict_line, acc), s1)),
            _ => None,
        }
    }
}

pub open spec fn dict_rest(
    t: Seq<char>,
    origin: int,
    s: PState,
    ends: char,
    dict_line: int,
    acc: Seq<(Seq<char>, Value)>,
    name: Seq<char>,
    v: Value,
) -> Option<(Value, PState)>
    decreases t.len() - origin, 0nat,
{
    if has_name(acc, name) {
        None
    } else {
        let acc2 = acc.push((name, v));
        match step(t, s) {
            Some((Lex::EOF, s1)) => if ends != '\0' {
                None
            } else {
                Some((Value::Dict(dict_line, acc2), s1))
            },
            Some((Lex::Bracket(b), s1)) => if b == '}' && ends == '}' {
                Some((Value::Dict(dict_line, acc2), s1))
            } else {
                None
            },
            Some((Lex::NewLine, s1)) => if inside(t, origin, s1) {
                dict_items(t, s1, ends, dict_line, acc2)
            } else {
                None
            },
            Some((Lex::Comma, s1)) => if inside(t, origin, s1) {
                dict_items(t, s1, ends, dict_line, acc2)
            } else {
                None
            },
            _ => None,
        }
    }
}

/// A list up to its `]`, and where the parser stands after it.
pub open spec fn parse_list(t: Seq<char>, s: PState) -> Option<(Value, PState)>
    decreases t.len() - s.at.idx, 2nat,
{
    list_items(t, s, s.line, Seq::empty())
}

pub open spec fn list_items(t: Seq<char>, s: PState, list_line: int, acc: Seq<Value>) -> Option<
    (Value, PState),
>
    decreases t.len() - s.at.idx, 1nat,
{
    if s.at.idx < 0 || s.at.idx > t.len() {
        None
    } else {
        match step(t, s) {
            Some((Lex::Bracket(b), s1)) => if b == '{' && inside(t, s.at.idx, s1) {
                match parse_dict(t, s1, '}') {
                    Some((v, s2)) => list_rest(t, s.at.idx, s2, list_line, acc, v),
                    None => None,
                }
            } else if b == '[' && inside(t, s.at.idx, s1) {
                match parse_list(t, s1) {
                    Some((v, s2)) => list_rest(t, s.at.idx, s2, list_line, acc, v),
                    None => None,
                }
            } else if b == ']' {
                Some((Value::List(list_line, acc), s1))
            } else {
                None
            },
            Some((Lex::String(v), s1)) => list_rest(
                t,
                s.at.idx,
                s1,
                list_line,
                acc,
                Value::Str(s.line, v),
            ),
            _ => None,
        }
    }
}

pub open spec fn list_rest(
    t: Seq<char>,
    origin: int,
    s: PState,
    list_line: int,
    acc: Seq<Value>,
    v: Value,
) -> Option<(Value, PState)>
    decreases t.len() - origin, 0nat,
{
    let acc2 = acc.push(v);
    match step(t, s) {
        Some((Lex::Bracket(b), s1)) => if b == ']' {
            Some((Value::List(list_line, acc2), s1))
        } else {
            None
        },
        Some((Lex::NewLine, s1)) => if inside(t, origin, s1) {
            list_items(t, s1, list_line, acc2)
        } else {
            None
        },
        Some((Lex::Comma, s1)) => if inside(t, origin, s1) {
            list_items(t, s1, list_line, acc2)
        } else {
            None
        },
        _ => None,
    }
}

/// The whole text as a map.
pub open spec fn parse_text(t: Seq<char>) -> Option<Value> {
    match parse_dict(
        t,
        PState { at: LexPos { idx: 0, line_number: 1, line_begin: 0 }, line: 0 },
        '\0',
    ) {
        Some((v, _)) => Some(v),
        None => None,
    }
}

// ---------------------------------------------------------------------------
// The parser.

pub open spec fn pstate(c: Cursor) -> PState {
    PState { at: c.at(), line: c.line as int }
}

proof fn lemma_params_model(s: Seq<(String, ParameterValue)>)
    ensures
        params_model(s).len() == s.len(),
        forall|i: int|
            0 <= i < s.len() ==> #[trigger] params_model(s)[i] == (s[i].0@, value_model(s[i].1)),
    decreases s.len(),
{
    if s.len() > 0 {
        lemma_params_model(s.drop_last());
    }
}

pub proof fn lemma_elements_model(s: Seq<ParameterValue>)
    ensures
        elements_model(s).len() == s.len(),
        forall|i: int| 0 <= i < s.len() ==> #[trigger] elements_model(s)[i] == value_model(s[i]),
    decreases s.len(),
{
    if s.len() > 0 {
        lemma_elements_model(s.drop_last());
    }
}

pub proof fn lemma_params_model_push(s: Seq<(String, ParameterValue)>, x: (String, ParameterValue))
    ensures
        params_model(s.push(x)) == params_model(s).push((x.0@, value_model(x.1))),
{
    assert(s.push(x).drop_last() =~= s);
}

pub proof fn lemma_elements_model_push(s: Seq<ParameterValue>, x: ParameterValue)
    ensures
        elements_model(s.push(x)) == elements_model(s).push(value_model(x)),
{
    assert(s.push(x).drop_last() =~= s);
}

pub(crate) fn has_param(params: &Vec<(String, ParameterValue)>, name: &String) -> (r: bool)
    ensures
        r == has_name(params_model(params@), name@),
{
    proof {
        lemma_params_model(params@);
    }
    let mut i: usize = 0;
    while i < params.len()
        invariant
            i <= params@.len(),
            params_model(params@).len() == params@.len(),
            forall|k: int|
                0 <= k < params@.len() ==> #[trigger] params_model(params@)[k] == (
                    params@[k].0@,
                    value_model(params@[k].1),
                ),
            forall|k: int| 0 <= k < i ==> params@[k].0@ != name@,
        decreases params@.len() - i,
    {
        if params[i].0 == *name {
            assert(params_model(params@)[i as int].0 == name@);
            return true;
        }
        i = i + 1;
    }
    false
}

fn next_lexeme(cur: &mut Cursor) -> (r: Result<Lexeme, String>)
    requires
        old(cur).wf(),
    ensures
        final(cur).wf(),
        final(cur).text@ == old(cur).text@,
        match step(old(cur).text@, pstate(*old(cur))) {
            Some((l, s)) => r matches Ok(x) && x@ == l && pstate(*final(cur)) == s,
            None => r is Err,
        },
        r is Ok ==> old(cur).curPos <= final(cur).curPos,
        r matches Ok(x) && x@ != Lex::EOF ==> old(cur).curPos < final(cur).curPos,
{
    proof {
        lemma_lex_progress(old(cur).text@, old(cur).at());
    }
    cur.next()
}

fn error_at(cur: &Cursor, message: &str) -> (r: String)
    requires
        cur.wf(),
{
    let mut r = cur.printLine();
    crate::text::push_str(&mut r, message);
    r
}

impl Dict {
    fn parse(cur: &mut Cursor, endsWith: char) -> (r: Result<Dict, String>)
        requires
            old(cur).wf(),
        ensures
            final(cur).wf(),
            final(cur).text@ == old(cur).text@,
            match parse_dict(old(cur).text@, pstate(*old(cur)), endsWith) {
                Some((v, s)) => r matches Ok(d) && value_model(ParameterValue::Dict(d)) == v
                    && pstate(*final(cur)) == s && old(cur).curPos <= final(cur).curPos,
                None => r is Err,
            },
        decreases old(cur).text@.len() - old(cur).curPos, 2nat,
    {
        let ghost t = cur.text@;
        let dictLine = cur.line;
        let mut params: Vec<(String, ParameterValue)> = Vec::new();
        assert(params_model(params@) =~= Seq::<(Seq<char>, Value)>::empty());
        loop
            invariant
                cur.wf(),
                cur.text@ == t,
                t == old(cur).text@,
                old(cur).curPos <= cur.curPos,
                dict_items(t, pstate(*cur), endsWith, dictLine as int, params_model(params@))
                    == parse_dict(t, pstate(*old(cur)), endsWith),
            decreases t.len() - cur.curPos,
        {
            let ghost s0 = pstate(*cur);
            let ghost acc = params_model(params@);
            let first = match next_lexeme(cur) {
                Ok(l) => l,
                Err(e) => {
                    return Err(e);
                },
            };
            match first {
                Lexeme::String(name) => {
                    match next_lexeme(cur) {
                        Ok(Lexeme::Eq) => {},
                        Ok(Lexeme::Colon) => {},
                        Ok(_) => {
                            return Err(error_at(cur, "Expected : or ="));
                        },
                        Err(e) => {
                            return Err(e);
                        },
                    }
                    let ghost s2 = pstate(*cur);
                    let third = match next_lexeme(cur) {
                        Ok(l) => l,
                        Err(e) => {
                            return Err(e);
                        },
                    };
                    let ghost s3 = pstate(*cur);
                    let value = match third {
                        Lexeme::Bracket(b) => {
                            if b == '{' {
                                match Dict::parse(cur, '}') {
                                    Ok(d) => ParameterValue::Dict(d),
                                    Err(e) => {
                                        return Err(e);
                                    },
                                }
                            } else if b == '[' {
                                match List::parse(cur) {
                                    Ok(l) => ParameterValue::List(l),
                                    Err(e) => {
                                        return Err(e);
                                    },
                                }
                            } else {
                                return Err(error_at(cur, "Value of parameter has been missed"));
                            }
                        },
                        Lexeme::String(v) => ParameterValue::String { line: cur.line, value: v },
                        _ => {
                            return Err(error_at(cur, "Value of parameter has been missed"));
                        },
                    };
                    let ghost s4 = pstate(*cur);
                    let ghost vm = value_model(value);
                    assert(dict_items(t, s0, endsWith, dictLine as int, acc) == dict_rest(
                        t,
                        s0.at.idx,
                        s4,
                        endsWith,
                        dictLine as int,
                        acc,
                        name@,
                        vm,
                    ));
                    if has_param(&params, &name) {
                        return Err(error_at(cur, "Parameter has been declarated before"));
                    }
                    let ghost item = (name, value);
                    proof {
                        lemma_params_model_push(params@, item);
                    }
                    params.push((name, value));
                    match next_lexeme(cur) {
                        Ok(Lexeme::EOF) => {
                            if endsWith != '\0' {
                                return Err(error_at(cur, "Expected _, but EOF was found"));
                            }
                            return Ok(Dict { line: dictLine, params });
                        },
                        Ok(Lexeme::Bracket(b)) => {
                            if b == '}' && endsWith == '}' {
                                return Ok(Dict { line: dictLine, params });
                            }
                            return Err(error_at(cur, "Expected EOF, but _ was found"));
                        },
                        Ok(Lexeme::NewLine) => {},
                        Ok(Lexeme::Comma) => {},
                        Ok(_) => {
                            return Err(error_at(cur, "Expected 'new line ', ',' or end of map"));
                        },
                        Err(e) => {
                            return Err(e);
                        },
                    }
                },
                Lexeme::NewLine => {},
                Lexeme::EOF => {
                    return Ok(Dict { line: dictLine, params });
                },
                _ => {
                    return Err(error_at(cur, "Expected parameter name"));
                },
            }
        }
    }
}

impl List {
    fn parse(cur: &mut Cursor) -> (r: Result<List, String>)
        requires
            old(cur).wf(),
        ensures
            final(cur).wf(),
            final(cur).text@ == old(cur).text@,
            match parse_list(old(cur).text@, pstate(*old(cur))) {
                Some((v, s)) => r matches Ok(l) && value_model(ParameterValue::List(l)) == v
                    && pstate(*final(cur)) == s && old(cur).curPos <= final(cur).curPos,
                None => r is Err,
            },
        decreases old(cur).text@.len() - old(cur).curPos, 2nat,
    {
        let ghost t = cur.text@;
        let listLine = cur.line;
        let mut elements: Vec<ParameterValue> = Vec::new();
        assert(elements_model(elements@) =~= Seq::<Value>::empty());
        loop
            invariant
                cur.wf(),
                cur.text@ == t,
                t == old(cur).text@,
                old(cur).curPos <= cur.curPos,
                list_items(t, pstate(*cur), listLine as int, elements_model(elements@))
                    == parse_list(t, pstate(*old(cur))),
            decreases t.len() - cur.curPos,
        {
            let line = cur.line;
            let first = match next_lexeme(cur) {
                Ok(l) => l,
                Err(e) => {
                    return Err(e);
                },
            };
            let elem = match first {
                Lexeme::Bracket(b) => {
                    if b == '{' {
                        match Dict::parse(cur, '}') {
                            Ok(d) => ParameterValue::Dict(d),
                            Err(e) => {
                                return Err(e);
                            },
                        }
                    } else if b == '[' {
                        match List::parse(cur) {
                            Ok(l) => ParameterValue::List(l),
                            Err(e) => {
                                return Err(e);
                            },
                        }
                    } else if b == ']' {
                        return Ok(List { line: listLine, elements });
                    } else {
                        return Err(error_at(cur, "Expected string, list or map"));
                    }
                },
                Lexeme::String(v) => ParameterValue::String { line, value: v },
                _ => {
                    return Err(error_at(cur, "Parameter has been missed"));
                },
            };
            proof {
                lemma_elements_model_push(elements@, elem);
            }
            elements.push(elem);
            match next_lexeme(cur) {
                Ok(Lexeme::Bracket(b)) => {
                    if b == ']' {
                        return Ok(List { line: listLine, elements });
                    }
                    return Err(error_at(cur, "Expected 'new line' , ',' or ']'"));
                },
                Ok(Lexeme::NewLine) => {},
                Ok(Lexeme::Comma) => {},
                Ok(_) => {
                    return Err(error_at(cur, "Expected 'new line' , ',' or ']'"));
                },
                Err(e) => {
                    return Err(e);
                },
            }
        }
    }
}

// ---------------------------------------------------------------------------
// Reading parsed values.

/// `i` is the first parameter named `name`.
pub open spec fn first_with(p: Seq<(Seq<char>, Value)>, name: Seq<char>, i: int) -> bool {
    &&& 0 <= i < p.len()
    &&& p[i].0 == name
    &&& forall|j: int| 0 <= j < i ==> p[j].0 != name
}

/// The value of the first parameter named `name`.
pub open spec fn lookup(p: Seq<(Seq<char>, Value)>, name: Seq<char>) -> Option<Value> {
    if exists|i: int| first_with(p, name, i) {
        Some(p[choose|i: int| first_with(p, name, i)].1)
    } else {
        None
    }
}

/// What a lookup of a string-valued parameter gives.
pub open spec fn lookup_string(p: Seq<(Seq<char>, Value)>, name: Seq<char>) -> Option<Seq<char>> {
    match lookup(p, name) {
        Some(Value::Str(_, v)) => Some(v),
        _ => None,
    }
}

/// "Line <line> : <a><name><b>"
/// An error message: `Line <line> : <a><name><b>`.
pub open spec fn line_text(line: int, a: Seq<char>, name: Seq<char>, b: Seq<char>) -> Seq<char> {
    "Line "@ + crate::text::decimal(line as nat) + " : "@ + a + name + b
}

/// The line of a parsed value.
pub open spec fn line_of(v: Value) -> int {
    match v {
        Value::Str(l, _) => l,
        Value::List(l, _) => l,
        Value::Dict(l, _) => l,
    }
}

/// The error of a getter that found `found` under `name` in the map of
/// line `dict_line`, where it wanted another kind (`wrong_kind` ends the
/// message).
pub open spec fn getter_error(found: Option<Value>, dict_line: int, name: Seq<char>, wrong_kind: Seq<char>) -> Seq<char> {
    match found {
        None => line_text(dict_line, "Map has no parameter \""@, name, "\""@),
        Some(v) => line_text(line_of(v), "Parameter \""@, name, wrong_kind),
    }
}

fn line_message(line: usize, a: &str, name: &str, b: &str) -> (r: String)
    ensures
        r@ == line_text(line as int, a@, name@, b@),
{
    let mut r = String::new();
    push_str(&mut r, "Line ");
    push_decimal(&mut r, line);
    push_str(&mut r, " : ");
    push_str(&mut r, a);
    push_str(&mut r, name);
    push_str(&mut r, b);
    assert(r@ =~= line_text(line as int, a@, name@, b@));
    r
}

impl ParameterValue {
    pub fn getString(&self) -> (r: Result<&String, String>)
        ensures
            match self {
                ParameterValue::String { line, value } => r matches Ok(s) && *s == *value,
                _ => r matches Err(e) && e@ == line_text(
                    line_of(value_model(*self)),
                    "Parameter is not string"@,
                    ""@,
                    ""@,
                ),
            },
    {
        match self {
            ParameterValue::String { line, value } => Ok(value),
            ParameterValue::Dict(d) => Err(line_message(d.line, "Parameter is not string", "", "")),
            ParameterValue::List(l) => Err(line_message(l.line, "Parameter is not string", "", "")),
        }
    }

    pub fn getMap(&self) -> (r: Result<&Dict, String>)
        ensures
            match self {
                ParameterValue::Dict(d) => r matches Ok(x) && *x == *d,
                _ => r matches Err(e) && e@ == line_text(
                    line_of(value_model(*self)),
                    "Parameter is not map"@,
                    ""@,
                    ""@,
                ),
            },
    {
        match self {
            ParameterValue::String { line, value } => Err(
                line_message(*line, "Parameter is not map", "", ""),
            ),
            ParameterValue::Dict(d) => Ok(d),
            ParameterValue::List(l) => Err(line_message(l.line, "Parameter is not map", "", "")),
        }
    }

    pub fn getList(&self) -> (r: Result<&List, String>)
        ensures
            match self {
                ParameterValue::List(l) => r matches Ok(x) && *x == *l,
                _ => r matches Err(e) && e@ == line_text(
                    line_of(value_model(*self)),
                    "Parameter is not list"@,
                    ""@,
                    ""@,
                ),
            },
    {
        match self {
            ParameterValue::String { line, value } => Err(
                line_message(*line, "Parameter is not list", "", ""),
            ),
            ParameterValue::Dict(d) => Err(line_message(d.line, "Parameter is not list", "", "")),
            ParameterValue::List(l) => Ok(l),
        }
    }
}

impl Dict {
    pub open spec fn model(&self) -> Seq<(Seq<char>, Value)> {
        params_model(self.params@)
    }

    /// The index of the first parameter named `name`.
    fn position(&self, name: &str) -> (r: Option<usize>)
        ensures
            match r {
                Some(i) => i < self.params@.len() && first_with(self.model(), name@, i as int) && lookup(self.model(), name@)
                    == Some(value_model(self.params@[i as int].1)),
                None => lookup(self.model(), name@) is None,
            },
    {
        proof {
            lemma_params_model(self.params@);
        }
        let key = name.to_owned();
        let mut i: usize = 0;
        while i < self.params.len()
            invariant
                i <= self.params@.len(),
                key@ == name@,
                self.model().len() == self.params@.len(),
                forall|k: int|
                    0 <= k < self.params@.len() ==> #[trigger] self.model()[k] == (
                        self.params@[k].0@,
                        value_model(self.params@[k].1),
                    ),
                forall|k: int| 0 <= k < i ==> self.model()[k].0 != name@,
            decreases self.params@.len() - i,
        {
            if self.params[i].0 == key {
                proof {
                    assert(first_with(self.model(), name@, i as int));
                    let c = choose|c: int| first_with(self.model(), name@, c);
                    if c < i {
                        assert(self.model()[c].0 != name@);
                    } else if c > i {
                        assert(self.model()[i as int].0 == name@);
                    }
                }
                return Some(i);
            }
            i = i + 1;
        }
        None
    }

    pub fn getMap(&self, name: &str) -> (r: Result<&Dict, String>)
        ensures
            match lookup(self.model(), name@) {
                Some(Value::Dict(line, p)) => r matches Ok(d) && value_model(ParameterValue::Dict(*d))
                    == Value::Dict(line, p),
                _ => r matches Err(e) && e@ == getter_error(
                    lookup(self.model(), name@),
                    self.line as int,
                    name@,
                    "\" is not map"@,
                ),
            },
    {
        match self.position(name) {
            Some(i) => match &self.params[i].1 {
                ParameterValue::String { line, value } => Err(
                    line_message(*line, "Parameter \"", name, "\" is not map"),
                ),
                ParameterValue::Dict(d) => Ok(d),
                ParameterValue::List(l) => Err(
                    line_message(l.line, "Parameter \"", name, "\" is not map"),
                ),
            },
            None => Err(line_message(self.line, "Map has no parameter \"", name, "\"")),
        }
    }

    pub fn getList(&self, name: &str) -> (r: Result<&List, String>)
        ensures
            match lookup(self.model(), name@) {
                Some(Value::List(line, e)) => r matches Ok(l) && value_model(ParameterValue::List(*l))
                    == Value::List(line, e),
                _ => r matches Err(e) && e@ == getter_error(
                    lookup(self.model(), name@),
                    self.line as int,
                    name@,
                    "\" is not list"@,
                ),
            },
    {
        match self.position(name) {
            Some(i) => match &self.params[i].1 {
                ParameterValue::String { line, value } => Err(
                    line_message(*line, "Parameter \"", name, "\" is not list"),
                ),
                ParameterValue::Dict(d) => Err(
                    line_message(d.line, "Parameter \"", name, "\" is not list"),
                ),
                ParameterValue::List(l) => Ok(l),
            },
            None => Err(line_message(self.line, "Map has no parameter \"", name, "\"")),
        }
    }

    pub fn getString(&self, name: &str) -> (r: Result<&String, String>)
        ensures
            match lookup_string(self.model(), name@) {
                Some(v) => r matches Ok(s) && s@ == v,
                None => r matches Err(e) && e@ == getter_error(
                    lookup(self.model(), name@),
                    self.line as int,
                    name@,
                    "\" is not string"@,
                ),
            },
    {
        match self.position(name) {
            Some(i) => match &self.params[i].1 {
                ParameterValue::String { line, value } => Ok(value),
                ParameterValue::Dict(d) => Err(
                    line_message(d.line, "Parameter \"", name, "\" is not string"),
                ),
                ParameterValue::List(l) => Err(
                    line_message(l.line, "Parameter \"", name, "\" is not string"),
                ),
            },
            None => Err(line_message(self.line, "Map has no parameter \"", name, "\"")),
        }
    }

    /// The string-valued parameter `name`, read as an unsigned integer.
    pub fn getStringAs(&self, name: &str) -> (r: Result<usize, String>)
        ensures
            match lookup_string(self.model(), name@) {
                Some(v) => match parse_unsigned(v, usize::MAX as int) {
                    Some(n) => r matches Ok(x) && x == n,
                    None => r matches Err(e) && e@ == line_text(
                        line_of(lookup(self.model(), name@)->0),
                        "Can not parse parameter \""@,
                        name@,
                        "\""@,
                    ),
                },
                None => r matches Err(e) && e@ == getter_error(
                    lookup(self.model(), name@),
                    self.line as int,
                    name@,
                    "\" is not string"@,
                ),
            },
    {
        match self.position(name) {
            Some(i) => match &self.params[i].1 {
                ParameterValue::String { line, value } => {
                    let chars = chars_of(value.as_str());
                    match parse_usize(chars.as_slice()) {
                        Some(n) => Ok(n),
                        None => Err(
                            line_message(*line, "Can not parse parameter \"", name, "\""),
                        ),
                    }
                },
                ParameterValue::Dict(d) => Err(
                    line_message(d.line, "Parameter \"", name, "\" is not string"),
                ),
                ParameterValue::List(l) => Err(
                    line_message(l.line, "Parameter \"", name, "\" is not string"),
                ),
            },
            None => Err(line_message(self.line, "Map has no parameter \"", name, "\"")),
        }
    }
}

impl List {
    pub fn iter(&self) -> (r: std::slice::Iter<'_, ParameterValue>)
        ensures
            vstd::std_specs::slice::into_iter_elts(r) == self.elements@,
    {
        let s = self.elements.as_slice();
        proof {
            vstd::std_specs::slice::axiom_spec_slice_iter(s);
        }
        s.iter()
    }
}

/// Parses `text` as a map and hands it to `process`.
pub fn parse<T, F: FnOnce(Dict) -> Result<T, String>>(text: &str, process: F) -> (r: Result<T, String>)
    requires
        forall|d: Dict| process.requires((d,)),
    ensures
        match parse_text(text@) {
            None => r is Err,
            Some(v) => exists|d: Dict| value_model(ParameterValue::Dict(d)) == v && process.ensures((d,), r),
        },
{
    let mut cur = Cursor::new(text);
    match Dict::parse(&mut cur, '\0') {
        Ok(root) => process(root),
        Err(e) => Err(e),
    }
}

} // verus!
