//! Partition keys: a template of literal text and field references rendered
//! against an event.
use vstd::prelude::*;
use vstd::string::*;
use crate::event::{Event, field_value};

verus! {

/// One piece of a template.
#[derive(Debug, Clone, PartialEq, Eq)]
pub enum TemplatePart {
    Literal(String),
    Field(String),
}

/// A partition-key template, such as `{{ level }}` or `logs-{{ app }}`.
#[derive(Debug, Clone)]
pub struct Template {
    pub parts: Vec<TemplatePart>,
}

/// The key for `fields`, or `None` when a referenced field is missing.
pub open spec fn render_parts(parts: Seq<TemplatePart>, fields: Seq<(String, String)>) -> Option<Seq<char>>
    decreases parts.len(),
{
    if parts.len() == 0 {
        Some(Seq::empty())
    } else {
        match render_parts(parts.drop_last(), fields) {
            None => None,
            Some(prefix) => match parts.last() {
                TemplatePart::Literal(s) => Some(prefix + s@),
                TemplatePart::Field(n) => match field_value(fields, n@) {
                    Some(v) => Some(prefix + v),
                    None => None,
                },
            },
        }
    }
}

/// Whether the template reads the field `name`.
pub open spec fn references(parts: Seq<TemplatePart>, name: Seq<char>) -> bool {
    exists|i: int| 0 <= i < parts.len() && (#[trigger] parts[i] matches TemplatePart::Field(n) && n@ == name)
}

/// The partition key of an event: deterministic for identical field values,
/// `None` when the key cannot be resolved.
pub proof fn lemma_partition_deterministic(t: Template, e1: Event, e2: Event)
    requires
        forall|n: Seq<char>| references(t.parts@, n) ==> field_value(e1.fields@, n) == field_value(e2.fields@, n),
    ensures
        render_parts(t.parts@, e1.fields@) == render_parts(t.parts@, e2.fields@),
{
    lemma_render_agree(t.parts@, e1.fields@, e2.fields@);
}

proof fn lemma_render_agree(parts: Seq<TemplatePart>, f1: Seq<(String, String)>, f2: Seq<(String, String)>)
    requires
        forall|n: Seq<char>| references(parts, n) ==> field_value(f1, n) == field_value(f2, n),
    ensures
        render_parts(parts, f1) == render_parts(parts, f2),
    decreases parts.len(),
{
    if parts.len() > 0 {
        let pre = parts.drop_last();
        assert forall|n: Seq<char>| references(pre, n) implies field_value(f1, n) == field_value(f2, n) by {
            let i = choose|i: int| 0 <= i < pre.len() && (#[trigger] pre[i] matches TemplatePart::Field(m) && m@ == n);
            assert(parts[i] == pre[i]);
        }
        lemma_render_agree(pre, f1, f2);
        if let TemplatePart::Field(m) = parts.last() {
            assert(parts[parts.len() - 1] == parts.last());
            assert(references(parts, m@));
        }
    }
}

impl Template {
    /// Renders the key for `event`; `None` when a referenced field is absent.
    pub fn render(&self, event: &Event) -> (r: Option<String>)
        ensures
            match r {
                Some(k) => render_parts(self.parts@, event.fields@) == Some(k@),
                None => render_parts(self.parts@, event.fields@) is None,
            },
    {
        let n = self.parts.len();
        let mut acc = String::new();
        let mut i: usize = 0;
        while i < n
            invariant
                i <= n,
                n == self.parts@.len(),
                render_parts(self.parts@.subrange(0, i as int), event.fields@) == Some(acc@),
            decreases n - i,
        {
            let ghost pre = self.parts@.subrange(0, i as int);
            assert(self.parts@.subrange(0, i + 1).drop_last() =~= pre);
            match &self.parts[i] {
                TemplatePart::Literal(s) => {
                    acc.append(s.as_str());
                },
                TemplatePart::Field(name) => {
                    match event.get(name) {
                        Some(v) => {
                            acc.append(v.as_str());
                        },
                        None => {
                            proof {
                                lemma_render_none_extends(self.parts@, event.fields@, i as int + 1);
                            }
                            return None;
                        },
                    }
                },
            }
            i = i + 1;
        }
        assert(self.parts@.subrange(0, n as int) =~= self.parts@);
        Some(acc)
    }
}

proof fn lemma_render_none_extends(parts: Seq<TemplatePart>, fields: Seq<(String, String)>, k: int)
    requires
        0 <= k <= parts.len(),
        render_parts(parts.subrange(0, k), fields) is None,
    ensures
        render_parts(parts, fields) is None,
    decreases parts.len() - k,
{
    if k < parts.len() {
        assert(parts.subrange(0, k + 1).drop_last() =~= parts.subrange(0, k));
        lemma_render_none_extends(parts, fields, k + 1);
    } else {
        assert(parts.subrange(0, k) =~= parts);
    }
}

/// The mathematical form of a template part.
pub enum PartSpec {
    Literal(Seq<char>),
    Field(Seq<char>),
}

pub open spec fn part_spec(p: TemplatePart) -> PartSpec {
    match p {
        TemplatePart::Literal(s) => PartSpec::Literal(s@),
        TemplatePart::Field(s) => PartSpec::Field(s@),
    }
}

pub open spec fn parts_spec(ps: Seq<TemplatePart>) -> Seq<PartSpec> {
    Seq::new(ps.len(), |i: int| part_spec(ps[i]))
}

/// A template whose `{{` has no matching `}}`.
#[derive(Debug, Clone, Copy, PartialEq, Eq, Structural)]
pub struct TemplateParseError {
    pub position: usize,
}

pub open spec fn open_at(s: Seq<char>, i: int) -> bool {
    0 <= i && i + 1 < s.len() && s[i] == '{' && s[i + 1] == '{'
}

pub open spec fn close_at(s: Seq<char>, i: int) -> bool {
    0 <= i && i + 1 < s.len() && s[i] == '}' && s[i + 1] == '}'
}

/// The first `}}` at or after `i`, if any.
pub open spec fn first_close(s: Seq<char>, i: int) -> Option<int>
    decreases s.len() - i,
{
    if i < 0 || i + 1 >= s.len() {
        None
    } else if close_at(s, i) {
        Some(i)
    } else {
        first_close(s, i + 1)
    }
}

/// The first `{{` at or after `i`, or the length when there is none.
pub open spec fn first_open(s: Seq<char>, i: int) -> int
    decreases s.len() - i,
{
    if i < 0 || i + 1 >= s.len() {
        s.len() as int
    } else if open_at(s, i) {
        i
    } else {
        first_open(s, i + 1)
    }
}

/// `s` without its leading and trailing spaces.
pub open spec fn trim_spaces(s: Seq<char>) -> Seq<char>
    decreases s.len(),
{
    if s.len() > 0 && s[0] == ' ' {
        trim_spaces(s.drop_first())
    } else if s.len() > 0 && s.last() == ' ' {
        trim_spaces(s.drop_last())
    } else {
        s
    }
}

/// The parts of `s` from position `i` on: each `{{ name }}` is a field
/// (the name without surrounding spaces) and the text between is literal;
/// an unmatched `{{` is an error at its position.
pub open spec fn parse_at(s: Seq<char>, i: int) -> Result<Seq<PartSpec>, usize>
    decreases s.len() - i,
{
    if i < 0 || i >= s.len() {
        Ok(Seq::empty())
    } else if open_at(s, i) {
        match first_close(s, i + 2) {
            None => Err(i as usize),
            Some(j) => {
                proof {
                    lemma_first_close_bounds(s, i + 2);
                }
                match parse_at(s, j + 2) {
                    Ok(rest) => Ok(seq![PartSpec::Field(trim_spaces(s.subrange(i + 2, j)))] + rest),
                    Err(e) => Err(e),
                }
            },
        }
    } else {
        let k = first_open(s, i + 1);
        proof {
            lemma_first_open_bounds(s, i + 1);
        }
        match parse_at(s, k) {
            Ok(rest) => Ok(seq![PartSpec::Literal(s.subrange(i, k))] + rest),
            Err(e) => Err(e),
        }
    }
}

/// A `}}` found from `i` on lies at or after `i`.
pub proof fn lemma_first_close_bounds(s: Seq<char>, i: int)
    ensures
        first_close(s, i) matches Some(j) ==> i <= j && j + 1 < s.len() && close_at(s, j),
    decreases s.len() - i,
{
    if !(i < 0 || i + 1 >= s.len()) && !close_at(s, i) {
        lemma_first_close_bounds(s, i + 1);
    }
}

/// The next `{{` from `i` on lies between `i` and the end.
pub proof fn lemma_first_open_bounds(s: Seq<char>, i: int)
    requires
        0 <= i,
    ensures
        first_open(s, i) <= s.len(),
        i <= s.len() ==> i <= first_open(s, i),
    decreases s.len() - i,
{
    if !(i + 1 >= s.len()) && !open_at(s, i) {
        lemma_first_open_bounds(s, i + 1);
    }
}

fn is_open(s: &str, n: usize, i: usize) -> (r: bool)
    requires
        n == s@.len(),
    ensures
        r == open_at(s@, i as int),
{
    i < n && n - i >= 2 && s.get_char(i) == '{' && s.get_char(i + 1) == '{'
}

fn find_close(s: &str, n: usize, i: usize) -> (r: Option<usize>)
    requires
        n == s@.len(),
    ensures
        match r {
            Some(j) => first_close(s@, i as int) == Some(j as int),
            None => first_close(s@, i as int) is None,
        },
{
    let mut j: usize = i;
    while j < n && n - j >= 2 && !(s.get_char(j) == '}' && s.get_char(j + 1) == '}')
        invariant
            n == s@.len(),
            i <= j,
            first_close(s@, j as int) == first_close(s@, i as int),
        decreases n - j,
    {
        j = j + 1;
    }
    if j < n && n - j >= 2 {
        Some(j)
    } else {
        None
    }
}

fn find_open(s: &str, n: usize, i: usize) -> (r: usize)
    requires
        n == s@.len(),
    ensures
        r as int == first_open(s@, i as int),
{
    let mut j: usize = i;
    while j < n && n - j >= 2 && !(s.get_char(j) == '{' && s.get_char(j + 1) == '{')
        invariant
            n == s@.len(),
            i <= j,
            first_open(s@, j as int) == first_open(s@, i as int),
        decreases n - j,
    {
        j = j + 1;
    }
    if j < n && n - j >= 2 {
        j
    } else {
        n
    }
}

fn trim(s: &str) -> (r: String)
    ensures
        r@ == trim_spaces(s@),
{
    let n = s.unicode_len();
    let mut a: usize = 0;
    assert(s@.subrange(0, n as int) =~= s@);
    while a < n && s.get_char(a) == ' '
        invariant
            a <= n,
            n == s@.len(),
            trim_spaces(s@.subrange(a as int, n as int)) == trim_spaces(s@),
        decreases n - a,
    {
        assert(s@.subrange(a as int, n as int).drop_first() =~= s@.subrange(a + 1, n as int));
        a = a + 1;
    }
    let mut b: usize = n;
    while b > a && s.get_char(b - 1) == ' '
        invariant
            a <= b <= n,
            n == s@.len(),
            trim_spaces(s@.subrange(a as int, b as int)) == trim_spaces(s@),
            a < n ==> s@[a as int] != ' ',
        decreases b,
    {
        let ghost t = s@.subrange(a as int, b as int);
        assert(t.drop_last() =~= s@.subrange(a as int, b - 1));
        assert(t[0] == s@[a as int]);
        b = b - 1;
    }
    let ghost t = s@.subrange(a as int, b as int);
    if a < b {
        assert(t[0] == s@[a as int]);
        assert(t.last() == s@[b - 1]);
    }
    String::from_str(s.substring_char(a, b))
}

fn parse_from(s: &str, n: usize, i: usize) -> (r: Result<Vec<TemplatePart>, TemplateParseError>)
    requires
        n == s@.len(),
    ensures
        match (r, parse_at(s@, i as int)) {
            (Ok(ps), Ok(v)) => parts_spec(ps@) == v,
            (Err(e), Err(p)) => e.position == p,
            _ => false,
        },
    decreases n - i,
{
    if i >= n {
        let v: Vec<TemplatePart> = Vec::new();
        assert(parts_spec(v@) =~= Seq::<PartSpec>::empty());
        return Ok(v);
    }
    if is_open(s, n, i) {
        match find_close(s, n, i + 2) {
            None => Err(TemplateParseError { position: i }),
            Some(j) => {
                proof { lemma_first_close_bounds(s@, i + 2); }
                match parse_from(s, n, j + 2) {
                    Err(e) => Err(e),
                    Ok(rest) => {
                        let name = trim(s.substring_char(i + 2, j));
                        let mut ps: Vec<TemplatePart> = Vec::new();
                        ps.push(TemplatePart::Field(name));
                        let mut rest = rest;
                        ps.append(&mut rest);
                        assert(parts_spec(ps@) =~= seq![PartSpec::Field(trim_spaces(s@.subrange(i + 2, j as int)))] + parse_at(s@, j + 2)->Ok_0);
                        Ok(ps)
                    },
                }
            },
        }
    } else {
        let k = find_open(s, n, i + 1);
        proof { lemma_first_open_bounds(s@, i + 1); }
        match parse_from(s, n, k) {
            Err(e) => Err(e),
            Ok(rest) => {
                let lit = String::from_str(s.substring_char(i, k));
                let mut ps: Vec<TemplatePart> = Vec::new();
                ps.push(TemplatePart::Literal(lit));
                let mut rest = rest;
                ps.append(&mut rest);
                assert(parts_spec(ps@) =~= seq![PartSpec::Literal(s@.subrange(i as int, k as int))] + parse_at(s@, k as int)->Ok_0);
                Ok(ps)
            },
        }
    }
}

impl Template {
    /// Reads a template such as `logs-{{ app }}`; a `{{` without a
    /// matching `}}` is an error.
    pub fn parse(text: &str) -> (r: Result<Template, TemplateParseError>)
        ensures
            match (r, parse_at(text@, 0)) {
                (Ok(t), Ok(v)) => parts_spec(t.parts@) == v,
                (Err(e), Err(p)) => e.position == p,
                _ => false,
            },
    {
        let n = text.unicode_len();
        match parse_from(text, n, 0) {
            Ok(parts) => Ok(Template { parts }),
            Err(e) => Err(e),
        }
    }
}

} // verus!
