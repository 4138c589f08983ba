//! Expressions in the Common Expression Language that a tenant may give in place of a
//! built-in rule.

use std::sync::Arc;

use vstd::prelude::*;
use vstd::string::StringExecFns;

use crate::digits::exact_text;
use crate::digits::plain;
use crate::double::Double;
use crate::reader::read_double;
use crate::text::chars_of;
use crate::text::decimal;
use crate::text::decimal_text;
use crate::text::pieces;
use crate::text::split;
use crate::text::text_of;
use crate::text::text_option;

verus! {

/// A compiled expression of the `cel` crate.
#[verifier::external_type_specification]
#[verifier::external_body]
pub struct ExProgram(cel::Program);

/// The variables that an expression of the `cel` crate is evaluated with.
#[verifier::external_type_specification]
#[verifier::external_body]
pub struct ExContext<'p, 'v>(cel::Context<'p, 'v>);

/// A context that borrows nothing.
pub type Scope = cel::Context<'static, 'static>;

/// The value of a variable.
#[derive(Clone, Copy, Debug, PartialEq, Eq, Structural)]
pub enum Datum {
    Bool(bool),
    Int(i64),
    Number(Double),
}

/// The value of a variable, a number in digits.
#[derive(Debug)]
pub enum Written {
    Bool(bool),
    Int(i64),
    Number(String),
}

/// A variable and its value.
#[derive(Clone, Debug)]
pub struct Input {
    pub name: String,
    pub datum: Datum,
}

/// What an expression evaluates to.
#[derive(Debug)]
pub enum Answer {
    Bool(bool),
    Int(i64),
    Number(Double),
    Text(String),
    Null,
    Other,
}

/// The outcome of an evaluation: a value, with the way it is shown to people, or the
/// message of a failure.
#[derive(Debug)]
pub enum Reply {
    Value { answer: Answer, shown: String },
    Failure { message: String },
}

/// What an evaluation's outcome says.
pub enum ReplyView {
    Bool(bool),
    Int(i64),
    Number(Double),
    Text(Seq<char>),
    Null,
    Other,
    Failure,
}

impl View for Reply {
    type V = ReplyView;

    open spec fn view(&self) -> ReplyView {
        match self {
            Reply::Value { answer, shown } => match answer {
                Answer::Bool(b) => ReplyView::Bool(*b),
                Answer::Int(n) => ReplyView::Int(*n),
                Answer::Number(x) => ReplyView::Number(*x),
                Answer::Text(s) => ReplyView::Text(s@),
                Answer::Null => ReplyView::Null,
                Answer::Other => ReplyView::Other,
            },
            Reply::Failure { message } => ReplyView::Failure,
        }
    }
}

/// What an outcome tells people: how its value is shown, or the message of the failure.
pub open spec fn reply_text(r: Reply) -> Seq<char> {
    match r {
        Reply::Value { answer, shown } => shown@,
        Reply::Failure { message } => message@,
    }
}

/// A flaw of a text that is no expression, and where it stands.
#[derive(Clone, Debug)]
pub struct SyntaxFlaw {
    pub line: i64,
    pub column: i64,
    pub message: String,
}

/// The positions and messages of a list of flaws.
pub open spec fn flaws_view(v: Seq<SyntaxFlaw>) -> Seq<(int, int, Seq<char>)> {
    v.map_values(|f: SyntaxFlaw| (f.line as int, f.column as int, f.message@))
}

/// The text that a program was compiled from.
pub uninterp spec fn source_of(program: cel::Program) -> Seq<char>;

/// What is wrong with a text that is no expression: the line and the column of each flaw,
/// counted from one, or zero where it has none, and what it is. `None` where the text is an
/// expression.
pub uninterp spec fn compile_failure(source: Seq<char>) -> Option<Seq<(int, int, Seq<char>)>>;

/// The variables of a context.
pub uninterp spec fn variables(context: Scope) -> Map<Seq<char>, Datum>;

/// Whether the expression `source`, evaluated with the variables `given`, may come to the
/// outcome `reply` with the text `told`. An expression that walks through a map may come
/// to several.
pub uninterp spec fn may_reply(
    source: Seq<char>,
    given: Map<Seq<char>, Datum>,
    reply: ReplyView,
    told: Seq<char>,
) -> bool;

/// No variables at all.
pub open spec fn no_variables() -> Map<Seq<char>, Datum> {
    Map::empty()
}

/// The value that a written value stands for.
pub open spec fn meant(w: Written) -> Option<Datum> {
    match w {
        Written::Bool(b) => Some(Datum::Bool(b)),
        Written::Int(n) => Some(Datum::Int(n)),
        Written::Number(s) => match read_double(s@) {
            Some(x) => Some(Datum::Number(x)),
            None => None,
        },
    }
}

/// `cel::Program::compile`: whether a text is an expression, and what is wrong with it
/// where it is none, depends on the text alone. The program keeps the text. Of each error the
/// position and the message are handed on.
#[verifier::external_body]
fn compile_program(source: &str) -> (r: Result<cel::Program, Vec<SyntaxFlaw>>)
    ensures
        match r {
            Ok(program) => compile_failure(source@) is None && source_of(program) == source@,
            Err(flaws) => compile_failure(source@) == Some(flaws_view(flaws@)),
        },
{
    let flaw = |e: cel::ParseError| SyntaxFlaw {
        line: e.pos.0 as i64,
        column: e.pos.1 as i64,
        message: e.msg,
    };
    cel::Program::compile(source).map_err(|found| found.errors.into_iter().map(flaw).collect())
}

/// `cel::Context::empty`: a context without variables.
#[verifier::external_body]
fn empty_context() -> (r: Scope)
    ensures
        variables(r) == no_variables(),
{
    cel::Context::empty()
}

/// `cel::Context::add_variable_from_value`: the variable has the value from then on, and
/// the others keep theirs. The digits of a number are read by `str::parse`, which gives
/// the nearest double.
#[verifier::external_body]
fn bind(context: &mut Scope, name: &str, value: Written)
    requires
        meant(value) is Some,
    ensures
        variables(*final(context)) == variables(*old(context)).insert(name@, meant(value)->0),
{
    let value = match value {
        Written::Bool(flag) => cel::Value::Bool(flag),
        Written::Int(number) => cel::Value::Int(number),
        Written::Number(digits) => cel::Value::Float(digits.parse().unwrap_or_default()),
    };
    context.add_variable_from_value(name, value);
}

/// `cel::Program::execute`: one of the outcomes that the program's text may come to with
/// the variables of the context.
#[verifier::external_body]
fn execute(program: &cel::Program, context: &Scope) -> (r: Reply)
    ensures
        may_reply(source_of(*program), variables(*context), r@, reply_text(r)),
{
    match program.execute(context) {
        Ok(value) => {
            let shown = format!("{value:?}");
            let answer = match value {
                cel::Value::Bool(flag) => Answer::Bool(flag),
                cel::Value::Int(number) => Answer::Int(number),
                cel::Value::Float(number) => Answer::Number(Double { bits: number.to_bits() }),
                cel::Value::String(text) => Answer::Text(text.to_string()),
                cel::Value::Null => Answer::Null,
                _ => Answer::Other,
            };
            Reply::Value { answer, shown }
        },
        Err(error) => Reply::Failure { message: error.to_string() },
    }
}

/// An integer in decimal digits, with a sign where it is negative.
pub open spec fn integer_text(n: int) -> Seq<char> {
    if n < 0 {
        "-"@ + decimal((-n) as nat)
    } else {
        decimal(n as nat)
    }
}

fn write_integer(n: i64) -> (r: String)
    ensures
        r@ == integer_text(n as int),
{
    if n < 0 {
        let mut r: String = "-".to_owned();
        r.append(decimal_text((-(n as i128)) as u64).as_str());
        r
    } else {
        decimal_text(n as u64)
    }
}

/// Line `n` of a text, counted from one. Lines end with a line feed, with or without a
/// carriage return in front of it, and the last one may end with the text.
pub open spec fn line_of(s: Seq<char>, n: int) -> Option<Seq<char>> {
    let p = pieces(s, '\n');
    if n < 1 || n > p.len() || (n == p.len() && p[n - 1].len() == 0) {
        None
    } else if n < p.len() && p[n - 1].len() > 0 && p[n - 1].last() == '\r' {
        Some(p[n - 1].drop_last())
    } else {
        Some(p[n - 1])
    }
}

fn read_line(s: &str, n: i64) -> (r: Option<String>)
    ensures
        text_option(r) == line_of(s@, n as int),
{
    let lines: Vec<String> = split(s, '\n');
    assert(pieces(s@, '\n').len() == lines.len());
    if n < 1 || n as u64 > lines.len() as u64 {
        return None;
    }
    let i: usize = (n - 1) as usize;
    assert(pieces(s@, '\n')[i as int] == lines@[i as int]@);
    let line: Vec<char> = chars_of(lines[i].as_str());
    if i + 1 == lines.len() {
        if line.len() == 0 {
            return None;
        }
    } else if line.len() > 0 && line[line.len() - 1] == '\r' {
        assert(line@.subrange(0, line.len() - 1) =~= line@.drop_last());
        return Some(text_of(&line, 0, line.len() - 1));
    }
    Some(lines[i].clone())
}

/// A mark in a column, with points in front of it.
pub open spec fn marked(column: int) -> Seq<char> {
    Seq::new(
        if column > 1 {
            (column - 1) as nat
        } else {
            0
        },
        |i: int| '.',
    ) + "^"@
}

fn mark(column: i64) -> (r: String)
    ensures
        r@ == marked(column as int),
{
    let mut r: String = String::new();
    let mut i: i64 = 1;
    assert(r@ =~= Seq::new(0, |i: int| '.'));
    while i < column
        invariant
            1 <= i,
            i <= column || i == 1,
            r@ == Seq::new((i - 1) as nat, |i: int| '.'),
        decreases column - i,
    {
        r.push('.');
        i = i + 1;
        assert(r@ =~= Seq::new((i - 1) as nat, |i: int| '.'));
    }
    r.append("^");
    r
}

/// What is told of a flaw of a text: where it stands and what it is, and below that its line,
/// where it has one, with a mark under its column.
pub open spec fn flaw_text(source: Seq<char>, flaw: (int, int, Seq<char>)) -> Seq<char> {
    let said = "ERROR: <input>:"@ + integer_text(flaw.0) + ":"@ + integer_text(flaw.1) + ": "@
        + flaw.2;
    match line_of(source, flaw.0) {
        Some(line) => said + "\n| "@ + line + "\n| "@ + marked(flaw.1),
        None => said,
    }
}

/// What is told of the flaws of a text, one below the other.
pub open spec fn flaws_text(source: Seq<char>, flaws: Seq<(int, int, Seq<char>)>) -> Seq<char>
    decreases flaws.len(),
{
    if flaws.len() == 0 {
        Seq::<char>::empty()
    } else if flaws.len() == 1 {
        flaw_text(source, flaws[0])
    } else {
        flaws_text(source, flaws.drop_last()) + "\n"@ + flaw_text(source, flaws.last())
    }
}

fn describe_flaw(source: &str, flaw: &SyntaxFlaw) -> (r: String)
    ensures
        r@ == flaw_text(source@, (flaw.line as int, flaw.column as int, flaw.message@)),
{
    let mut r: String = "ERROR: <input>:".to_owned();
    r.append(write_integer(flaw.line).as_str());
    r.append(":");
    r.append(write_integer(flaw.column).as_str());
    r.append(": ");
    r.append(flaw.message.as_str());
    match read_line(source, flaw.line) {
        Some(line) => {
            r.append("\n| ");
            r.append(line.as_str());
            r.append("\n| ");
            r.append(mark(flaw.column).as_str());
        },
        None => {},
    }
    r
}

/// What is told of the flaws of a text, one below the other.
pub fn describe_flaws(source: &str, flaws: &Vec<SyntaxFlaw>) -> (r: String)
    ensures
        r@ == flaws_text(source@, flaws_view(flaws@)),
{
    let ghost all = flaws_view(flaws@);
    let mut r: String = String::new();
    let mut i: usize = 0;
    assert(r@ =~= Seq::<char>::empty());
    while i < flaws.len()
        invariant
            i <= flaws.len(),
            all == flaws_view(flaws@),
            r@ == flaws_text(source@, all.take(i as int)),
        decreases flaws.len() - i,
    {
        assert(all.take(i + 1).drop_last() =~= all.take(i as int));
        assert(all.take(i + 1).last() == all[i as int]);
        let told: String = describe_flaw(source, &flaws[i]);
        if i == 0 {
            r = told;
        } else {
            r.append("\n");
            r.append(told.as_str());
        }
        i = i + 1;
    }
    assert(all.take(all.len() as int) =~= all);
    r
}

/// What is told of a text that is no expression; `None` where it is one.
pub open spec fn failure_text(source: Seq<char>) -> Option<Seq<char>> {
    match compile_failure(source) {
        Some(flaws) => Some(flaws_text(source, flaws)),
        None => None,
    }
}

/// Compiles a text.
pub fn compile(source: &str) -> (r: Result<Arc<cel::Program>, String>)
    ensures
        match r {
            Ok(program) => compile_failure(source@) is None && source_of(*program) == source@,
            Err(message) => failure_text(source@) == Some(message@),
        },
{
    match compile_program(source) {
        Ok(program) => Ok(Arc::new(program)),
        Err(flaws) => Err(describe_flaws(source, &flaws)),
    }
}

/// A value with every NaN taken for one and the same.
pub open spec fn plain_datum(d: Datum) -> Datum {
    match d {
        Datum::Number(x) => Datum::Number(plain(x)),
        _ => d,
    }
}

/// Names and values, for those of a list of inputs.
pub open spec fn inputs_view(v: Seq<Input>) -> Seq<(Seq<char>, Datum)> {
    v.map_values(|i: Input| (i.name@, i.datum))
}

/// The variables of a list of names and values.
pub open spec fn bindings(v: Seq<(Seq<char>, Datum)>) -> Map<Seq<char>, Datum>
    decreases v.len(),
{
    if v.len() == 0 {
        no_variables()
    } else {
        bindings(v.drop_last()).insert(v.last().0, plain_datum(v.last().1))
    }
}

/// Evaluates an expression with the given variables.
pub fn evaluate(program: &cel::Program, inputs: &Vec<Input>) -> (r: Reply)
    ensures
        may_reply(source_of(*program), bindings(inputs_view(inputs@)), r@, reply_text(r)),
{
    let mut context = empty_context();
    let ghost all = inputs_view(inputs@);
    let mut i: usize = 0;
    while i < inputs.len()
        invariant
            i <= inputs.len(),
            all == inputs_view(inputs@),
            variables(context) == bindings(all.take(i as int)),
        decreases inputs.len() - i,
    {
        let value: Written = match inputs[i].datum {
            Datum::Bool(b) => Written::Bool(b),
            Datum::Int(n) => Written::Int(n),
            Datum::Number(x) => Written::Number(exact_text(x)),
        };
        assert(meant(value) == Some(plain_datum(inputs@[i as int].datum)));
        bind(&mut context, inputs[i].name.as_str(), value);
        assert(all.take(i + 1).drop_last() =~= all.take(i as int));
        i = i + 1;
    }
    assert(all.take(all.len() as int) =~= all);
    execute(program, &context)
}

/// An input of a name and a value.
pub fn input(name: &str, datum: Datum) -> (r: Input)
    ensures
        (r.name@, r.datum) == (name@, datum),
{
    Input { name: name.to_owned(), datum }
}

// ---------------------------------------------------------------------------
// Laws
// ---------------------------------------------------------------------------

/// An expression sees every variable under its name, with the value that it was given last.
pub proof fn law_variables_have_their_last_value(v: Seq<(Seq<char>, Datum)>, i: int)
    requires
        0 <= i < v.len(),
        forall|k: int| i < k < v.len() ==> (#[trigger] v[k]).0 != v[i].0,
    ensures
        bindings(v).contains_key(v[i].0),
        bindings(v)[v[i].0] == plain_datum(v[i].1),
    decreases v.len(),
{
    if i < v.len() - 1 {
        assert(v[v.len() - 1].0 != v[i].0);
        let front = v.drop_last();
        assert forall|k: int| i < k < front.len() implies (#[trigger] front[k]).0 != front[i].0 by {
            assert(v[k].0 != v[i].0);
        }
        law_variables_have_their_last_value(front, i);
    }
}

/// A variable keeps its value, but that every NaN is one and the same.
pub proof fn law_variables_keep_their_value(d: Datum)
    ensures
        d is Bool || d is Int ==> plain_datum(d) == d,
        d matches Datum::Number(x) ==> !x.nan() ==> plain_datum(d) == d,
{
}

/// A mark stands in its column, behind points alone.
pub proof fn law_marks_stand_in_their_column(column: int, i: int)
    requires
        column >= 1,
    ensures
        marked(column).len() == column,
        0 <= i < column - 1 ==> marked(column)[i] == '.',
        marked(column)[column - 1] == '^',
{
    reveal_strlit("^");
}

/// The lines of a text are counted from one, and lie between line feeds.
pub proof fn law_lines_lie_between_feeds(a: Seq<char>, b: Seq<char>)
    requires
        !a.contains('\n'),
    ensures
        line_of(a.push('\n') + b, 0) is None,
        a.len() == 0 || a.last() != '\r' ==> line_of(a.push('\n') + b, 1) == Some(a),
        a.len() > 0 && a.last() == '\r' ==> line_of(a.push('\n') + b, 1) == Some(a.drop_last()),
        a.len() > 0 ==> line_of(a, 1) == Some(a),
        a.len() == 0 ==> line_of(a, 1) is None,
{
    crate::text::law_pieces_lie_between_separators(a, b, '\n');
    let p = pieces(a.push('\n') + b, '\n');
    assert(p[0] == a);
    assert(p.len() >= 2);
}

/// What is told of several flaws is what is told of each, one below the other.
pub proof fn law_flaws_are_told_one_below_the_other(
    source: Seq<char>,
    flaws: Seq<(int, int, Seq<char>)>,
    flaw: (int, int, Seq<char>),
)
    ensures
        flaws.len() == 0 ==> flaws_text(source, flaws.push(flaw)) == flaw_text(source, flaw),
        flaws.len() > 0 ==> flaws_text(source, flaws.push(flaw)) == flaws_text(source, flaws)
            + "\n"@ + flaw_text(source, flaw),
{
    assert(flaws.push(flaw).drop_last() =~= flaws);
}

} // verus!
