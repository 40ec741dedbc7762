//! The routines that run a grammar's rules over a cursor.
use vstd::prelude::*;
use crate::cursor::Cursor;
use crate::error::ParseFailure;
use crate::model::{
    find_name, find_rule, lemma_find_name, rule_names, Action, GrammarDefinition, Pattern,
    RepeatKind,
};
use crate::semantics::{
    bind, builtin_of, deeper, env_get, env_names, eval_action, eval_builtin, eval_call, eval_entry,
    eval_pattern, eval_repeat, eval_rule, eval_seq, eval_variants, in_class, skip, span, Builtin,
    CharClass, SeqStep, Step,
};
use crate::value::{copy_value, lemma_models_push, model_of, models_of, models_upto, Value};

verus! {

/// A value bound to a name while a sequence of patterns is matched.
pub struct Binding {
    pub name: String,
    pub value: Value,
}

pub open spec fn env_model(env: Seq<Binding>) -> Seq<(Seq<char>, crate::value::ValueModel)> {
    env.map_values(|b: Binding| (b.name@, model_of(b.value)))
}

/// A failure as an offset and what was expected there.
pub open spec fn fview(o: Option<ParseFailure>) -> Option<(int, Seq<char>)> {
    match o {
        Some(f) => Some((f.position as int, f.expected@)),
        None => None,
    }
}

/// `r` and the cursor's move from `before` to `after` are what `s` describes;
/// after a failure the cursor is back where it was.
pub open spec fn agrees(
    r: Result<(Value, Option<ParseFailure>), ParseFailure>,
    s: Step,
    before: Cursor,
    after: Cursor,
) -> bool {
    &&& after.input() == before.input()
    &&& match s {
        Step::Matched(v, e, f) => r is Ok && model_of(r->Ok_0.0) == v && fview(r->Ok_0.1) == f
            && after.pos() == e,
        Step::Failed(q, x) => r is Err && r->Err_0.position == q && r->Err_0.expected@ == x
            && after.pos() == before.pos(),
    }
}

pub open spec fn seq_agrees(
    r: Result<(Vec<Binding>, Option<ParseFailure>), ParseFailure>,
    s: SeqStep,
    before: Cursor,
    after: Cursor,
) -> bool {
    &&& after.input() == before.input()
    &&& match s {
        SeqStep::Matched(env, e, f) => r is Ok && env_model(r->Ok_0.0@) == env && fview(r->Ok_0.1)
            == f && after.pos() == e,
        SeqStep::Failed(q, x) => r is Err && r->Err_0.position == q && r->Err_0.expected@ == x
            && after.pos() == before.pos(),
    }
}

fn deeper_of(a: Option<ParseFailure>, b: Option<ParseFailure>) -> (r: Option<ParseFailure>)
    ensures
        fview(r) == deeper(fview(a), fview(b)),
{
    match b {
        None => a,
        Some(y) => match a {
            None => Some(y),
            Some(x) => if y.position > x.position {
                Some(y)
            } else {
                Some(x)
            },
        },
    }
}

fn deeper_failure(far: Option<ParseFailure>, e: ParseFailure) -> (r: ParseFailure)
    ensures
        deeper(fview(far), Some((e.position as int, e.expected@))) == Some(
            (r.position as int, r.expected@),
        ),
{
    match far {
        None => e,
        Some(x) => if e.position > x.position {
            e
        } else {
            x
        },
    }
}

pub fn same_text(a: &str, b: &str) -> (r: bool)
    ensures
        r == (a@ == b@),
{
    let n = a.unicode_len();
    if n != b.unicode_len() {
        return false;
    }
    let mut i: usize = 0;
    while i < n
        invariant
            n == a@.len() == b@.len(),
            0 <= i <= n,
            forall|j: int| 0 <= j < i ==> a@[j] == b@[j],
        decreases n - i,
    {
        if a.get_char(i) != b.get_char(i) {
            return false;
        }
        i = i + 1;
    }
    assert(a@ =~= b@);
    true
}

/// The primitive that `name` stands for, if any.
pub fn builtin_named(name: &String) -> (r: Option<Builtin>)
    ensures
        r == builtin_of(name@),
{
    let s = name.as_str();
    if same_text(s, "identifier") {
        Some(Builtin::Identifier)
    } else if same_text(s, "digits") {
        Some(Builtin::Digits)
    } else if same_text(s, "string") {
        Some(Builtin::StringLit)
    } else if same_text(s, "whitespace") {
        Some(Builtin::Whitespace)
    } else {
        None
    }
}

/// Whether `c` belongs to class `k`.
pub fn class_has(c: char, k: CharClass) -> (r: bool)
    ensures
        r == in_class(c, k),
{
    let u = c as u32;
    match k {
        CharClass::IdentStart => (97 <= u && u <= 122) || (65 <= u && u <= 90) || u == 95,
        CharClass::IdentRest => (97 <= u && u <= 122) || (65 <= u && u <= 90) || u == 95 || (48
            <= u && u <= 57),
        CharClass::Digit => 48 <= u && u <= 57,
        CharClass::Space => u == 32 || u == 9 || u == 10 || u == 13,
        CharClass::NotQuote => u != 34,
    }
}

/// The end of the run of characters of class `k` that starts at `from`.
fn span_of(cur: &Cursor, from: usize, k: CharClass) -> (e: usize)
    requires
        from <= cur.input().len(),
    ensures
        e == span(cur.input(), from as int, k),
        from <= e <= cur.input().len(),
{
    let n = cur.len();
    let mut i = from;
    while i < n && class_has(cur.char_at(i), k)
        invariant
            n == cur.input().len(),
            from <= i <= n,
            span(cur.input(), from as int, k) == span(cur.input(), i as int, k),
        decreases n - i,
    {
        i = i + 1;
    }
    i
}

/// Whether the input holds `s` at offset `q`.
fn literal_at(cur: &Cursor, q: usize, s: &String) -> (r: bool)
    requires
        q <= cur.input().len(),
    ensures
        r == (q + s@.len() <= cur.input().len() && cur.input().subrange(q as int, q + s@.len())
            == s@),
{
    let t = s.as_str();
    let m = t.unicode_len();
    let n = cur.len();
    if m > n - q {
        return false;
    }
    let mut j: usize = 0;
    while j < m
        invariant
            m == s@.len(),
            t@ == s@,
            n == cur.input().len(),
            q + m <= n,
            0 <= j <= m,
            forall|k: int| 0 <= k < j ==> cur.input()[q + k] == s@[k],
        decreases m - j,
    {
        if cur.char_at(q + j) != t.get_char(j) {
            assert(cur.input().subrange(q as int, q + m)[j as int] != s@[j as int]);
            return false;
        }
        j = j + 1;
    }
    assert(cur.input().subrange(q as int, q + m) =~= s@);
    true
}

fn failure(position: usize, expected: &str) -> (r: ParseFailure)
    ensures
        r.position == position,
        r.expected@ == expected@,
{
    ParseFailure { position, expected: String::from_str(expected) }
}

/// The value of the first binding named `n`, copied; absent if none.
fn env_lookup(env: &Vec<Binding>, n: &String) -> (r: Value)
    ensures
        model_of(r) == env_get(env_model(env@), n@),
{
    let ghost names = env_names(env_model(env@));
    proof {
        lemma_find_name(names, n@);
    }
    let mut i: usize = 0;
    while i < env.len()
        invariant
            0 <= i <= env.len(),
            names == env_names(env_model(env@)),
            names.len() == env@.len(),
            forall|j: int| 0 <= j < i ==> names[j] != n@,
            match find_name(names, n@) {
                Some(k) => 0 <= k < names.len() && names[k] == n@ && forall|j: int|
                    0 <= j < k ==> names[j] != n@,
                None => forall|j: int| 0 <= j < names.len() ==> names[j] != n@,
            },
        decreases env.len() - i,
    {
        assert(names[i as int] == env@[i as int].name@);
        if env[i].name == *n {
            assert(env_model(env@)[i as int].1 == model_of(env@[i as int].value));
            return copy_value(&env[i].value);
        }
        i = i + 1;
    }
    Value::Absent
}

/// The value that action `a` builds from the bindings `env`.
pub fn run_action(a: &Action, env: &Vec<Binding>) -> (r: Value)
    ensures
        model_of(r) == eval_action(*a, env_model(env@)),
{
    let ghost m = env_model(env@);
    match a {
        Action::Unit => Value::Unit,
        Action::Ref(n) => env_lookup(env, n),
        Action::Prepend(h, t) => {
            let head = env_lookup(env, h);
            let tail = env_lookup(env, t);
            let ghost mh = model_of(head);
            let mut out: Vec<Value> = Vec::new();
            proof {
                lemma_models_push(out@, head);
            }
            out.push(head);
            assert(models_of(out@) =~= seq![mh]);
            match tail {
                Value::List(xs) => {
                    let mut i: usize = 0;
                    assert(seq![mh] + models_upto(xs@, 0) =~= seq![mh]);
                    while i < xs.len()
                        invariant
                            0 <= i <= xs.len(),
                            models_of(out@) == seq![mh] + models_upto(xs@, i as int),
                        decreases xs.len() - i,
                    {
                        let c = copy_value(&xs[i]);
                        proof {
                            lemma_models_push(out@, c);
                        }
                        out.push(c);
                        assert(seq![mh] + models_upto(xs@, i + 1) =~= (seq![mh] + models_upto(
                            xs@,
                            i as int,
                        )).push(model_of(xs@[i as int])));
                        i = i + 1;
                    }
                    Value::List(out)
                },
                _ => Value::List(out),
            }
        },
        Action::Node(tag, names) => {
            let mut out: Vec<Value> = Vec::new();
            let mut i: usize = 0;
            let ghost f = |n: String| env_get(m, n@);
            assert(models_of(out@) =~= names@.take(0).map_values(f));
            while i < names.len()
                invariant
                    0 <= i <= names.len(),
                    m == env_model(env@),
                    f == (|n: String| env_get(m, n@)),
                    models_of(out@) == names@.take(i as int).map_values(f),
                decreases names.len() - i,
            {
                let v = env_lookup(env, &names[i]);
                proof {
                    lemma_models_push(out@, v);
                }
                out.push(v);
                assert(names@.take(i + 1).map_values(f) =~= names@.take(i as int).map_values(
                    f,
                ).push(f(names@[i as int])));
                i = i + 1;
            }
            assert(names@.take(i as int) =~= names@);
            Value::Node(tag.clone(), out)
        },
    }
}

/// Adds the binding that pattern `p` makes for value `v`, if it makes one.
fn bind_value(env: &mut Vec<Binding>, p: &Pattern, v: Value)
    ensures
        env_model(final(env)@) == bind(env_model(old(env)@), *p, model_of(v)),
{
    let name = match p {
        Pattern::RuleCall { binding, .. } => binding,
        Pattern::Repeat { binding, .. } => binding,
        _ => {
            return;
        },
    };
    match name {
        Some(n) => {
            let ghost before = env@;
            env.push(Binding { name: n.clone(), value: v });
            assert(env_model(env@) =~= env_model(before).push((n@, model_of(v))));
        },
        None => {},
    }
}

/// A checked grammar ready to run: its rules, and the depth budget that
/// bounds how deeply rule calls, groups and repetitions may nest.
pub struct Parser {
    grammar: GrammarDefinition,
    recursion_limit: u64,
}

impl Parser {
    /// A parser for `grammar`; only `compile` and the grammar loader make
    /// one, after the grammar has been checked.
    pub(crate) fn new_checked(grammar: GrammarDefinition, recursion_limit: u64) -> (r: Parser)
        ensures
            r.grammar() == grammar,
            r.depth_limit() == recursion_limit,
    {
        Parser { grammar, recursion_limit }
    }

    /// The grammar whose rules the parser runs.
    pub closed spec fn grammar(&self) -> GrammarDefinition {
        self.grammar
    }

    /// The depth budget of each parse.
    pub closed spec fn depth_limit(&self) -> u64 {
        self.recursion_limit
    }

    /// The depth budget of each parse.
    pub fn recursion_limit(&self) -> (r: u64)
        ensures
            r == self.depth_limit(),
    {
        self.recursion_limit
    }

    fn skip_from(&self, cur: &Cursor, from: usize) -> (r: usize)
        requires
            from <= cur.input().len(),
        ensures
            r == skip(self.grammar.implicit_whitespace, cur.input(), from as int),
            from <= r <= cur.input().len(),
    {
        if self.grammar.implicit_whitespace {
            span_of(cur, from, CharClass::Space)
        } else {
            from
        }
    }

    fn run_builtin(&self, b: Builtin, cur: &mut Cursor, p: usize) -> (r: Result<
        (Value, Option<ParseFailure>),
        ParseFailure,
    >)
        requires
            old(cur).pos() <= p <= old(cur).input().len(),
        ensures
            agrees(r, eval_builtin(b, old(cur).input(), p as int), *old(cur), *final(cur)),
    {
        let n = cur.len();
        match b {
            Builtin::Identifier => {
                if p < n && class_has(cur.char_at(p), CharClass::IdentStart) {
                    let e = span_of(cur, p + 1, CharClass::IdentRest);
                    let text = cur.text_between(p, e);
                    cur.reset(e);
                    Ok((Value::Text(text), None))
                } else {
                    Err(failure(p, "identifier"))
                }
            },
            Builtin::Digits => {
                let e = span_of(cur, p, CharClass::Digit);
                if e > p {
                    let text = cur.text_between(p, e);
                    cur.reset(e);
                    Ok((Value::Text(text), None))
                } else {
                    Err(failure(p, "digits"))
                }
            },
            Builtin::StringLit => {
                if p < n && cur.char_at(p) == '"' {
                    let e = span_of(cur, p + 1, CharClass::NotQuote);
                    if e < n {
                        let text = cur.text_between(p + 1, e);
                        cur.reset(e + 1);
                        Ok((Value::Text(text), None))
                    } else {
                        Err(failure(e, "\""))
                    }
                } else {
                    Err(failure(p, "string"))
                }
            },
            Builtin::Whitespace => {
                let e = span_of(cur, p, CharClass::Space);
                cur.reset(e);
                Ok((Value::Unit, None))
            },
        }
    }

    fn run_pattern(&self, p: &Pattern, cur: &mut Cursor, fuel: u64) -> (r: Result<
        (Value, Option<ParseFailure>),
        ParseFailure,
    >)
        ensures
            agrees(
                r,
                eval_pattern(self.grammar, *p, old(cur).input(), old(cur).pos() as int, fuel as nat),
                *old(cur),
                *final(cur),
            ),
        decreases fuel, 0int,
    {
        let pos = cur.position();
        if fuel == 0 {
            return Err(failure(pos, "recursion limit"));
        }
        let f = fuel - 1;
        match p {
            Pattern::Lit(s) => {
                let q = self.skip_from(cur, pos);
                if literal_at(cur, q, s) {
                    let m = s.as_str().unicode_len();
                    let n = cur.len();
                    assert(q + m <= n);
                    cur.reset(q + m);
                    Ok((Value::Text(s.clone()), None))
                } else {
                    Err(ParseFailure { position: q, expected: s.clone() })
                }
            },
            Pattern::RuleCall { rule_name, .. } => match find_rule(&self.grammar.rules, rule_name) {
                Some(i) => self.run_rule(i, cur, f),
                None => match builtin_named(rule_name) {
                    Some(Builtin::Whitespace) => self.run_builtin(Builtin::Whitespace, cur, pos),
                    Some(b) => {
                        let q = self.skip_from(cur, pos);
                        self.run_builtin(b, cur, q)
                    },
                    None => Err(ParseFailure { position: pos, expected: rule_name.clone() }),
                },
            },
            Pattern::Repeat { pattern, kind, .. } => match kind {
                RepeatKind::Optional => match self.run_pattern(pattern, cur, f) {
                    Ok((v, far)) => Ok((Value::Present(Box::new(v)), far)),
                    Err(e) => Ok((Value::Absent, Some(e))),
                },
                RepeatKind::ZeroOrMore => self.run_repeat(pattern, false, cur, f),
                RepeatKind::OneOrMore => self.run_repeat(pattern, true, cur, f),
            },
            Pattern::Group { patterns, action } => match self.run_seq(patterns, cur, f) {
                Ok((env, far)) => Ok((run_action(action, &env), far)),
                Err(e) => Err(e),
            },
        }
    }

    fn run_repeat(&self, inner: &Pattern, at_least_one: bool, cur: &mut Cursor, fuel: u64) -> (r:
        Result<(Value, Option<ParseFailure>), ParseFailure>)
        ensures
            agrees(
                r,
                eval_repeat(
                    self.grammar,
                    *inner,
                    at_least_one,
                    old(cur).input(),
                    old(cur).pos() as int,
                    fuel as nat,
                    Seq::empty(),
                    None,
                ),
                *old(cur),
                *final(cur),
            ),
        decreases fuel, 1int,
    {
        let ghost input = cur.input();
        let ghost g = self.grammar;
        let start = cur.position();
        let mut items: Vec<Value> = Vec::new();
        let mut far: Option<ParseFailure> = None;
        loop
            invariant
                cur.input() == input,
                old(cur).input() == input,
                old(cur).pos() == start,
                start <= cur.pos() <= input.len(),
                g == self.grammar,
                eval_repeat(
                    g,
                    *inner,
                    at_least_one,
                    input,
                    cur.pos() as int,
                    fuel as nat,
                    models_of(items@),
                    fview(far),
                ) == eval_repeat(
                    g,
                    *inner,
                    at_least_one,
                    input,
                    start as int,
                    fuel as nat,
                    Seq::empty(),
                    None,
                ),
                items@.len() == 0 ==> cur.pos() == start,
            decreases input.len() - cur.pos(),
        {
            let pos = cur.position();
            proof {
                crate::value::lemma_models_len(items@);
            }
            match self.run_pattern(inner, cur, fuel) {
                Ok((v, f)) => {
                    let e = cur.position();
                    if pos < e {
                        proof {
                            lemma_models_push(items@, v);
                        }
                        items.push(v);
                        far = deeper_of(far, f);
                    } else {
                        cur.reset(pos);
                        if at_least_one && items.len() == 0 {
                            return Err(failure(pos, "progress"));
                        } else {
                            return Ok((Value::List(items), deeper_of(far, f)));
                        }
                    }
                },
                Err(err) => {
                    if at_least_one && items.len() == 0 {
                        return Err(err);
                    } else {
                        return Ok((Value::List(items), deeper_of(far, Some(err))));
                    }
                },
            }
        }
    }

    fn run_seq(&self, ps: &Vec<Pattern>, cur: &mut Cursor, fuel: u64) -> (r: Result<
        (Vec<Binding>, Option<ParseFailure>),
        ParseFailure,
    >)
        ensures
            seq_agrees(
                r,
                eval_seq(
                    self.grammar,
                    ps@,
                    0,
                    old(cur).input(),
                    old(cur).pos() as int,
                    fuel as nat,
                    Seq::empty(),
                    None,
                ),
                *old(cur),
                *final(cur),
            ),
        decreases fuel, 1int,
    {
        let ghost input = cur.input();
        let ghost g = self.grammar;
        let start = cur.position();
        let mut env: Vec<Binding> = Vec::new();
        let mut far: Option<ParseFailure> = None;
        assert(env_model(env@) =~= Seq::empty());
        let mut i: usize = 0;
        while i < ps.len()
            invariant
                cur.input() == input,
                old(cur).input() == input,
                old(cur).pos() == start,
                g == self.grammar,
                0 <= i <= ps.len(),
                start <= input.len(),
                eval_seq(
                    g,
                    ps@,
                    i as int,
                    input,
                    cur.pos() as int,
                    fuel as nat,
                    env_model(env@),
                    fview(far),
                ) == eval_seq(g, ps@, 0, input, start as int, fuel as nat, Seq::empty(), None),
            decreases ps.len() - i,
        {
            match self.run_pattern(&ps[i], cur, fuel) {
                Ok((v, f)) => {
                    bind_value(&mut env, &ps[i], v);
                    far = deeper_of(far, f);
                },
                Err(e) => {
                    cur.reset(start);
                    return Err(deeper_failure(far, e));
                },
            }
            i = i + 1;
        }
        Ok((env, far))
    }

    fn run_rule(&self, i: usize, cur: &mut Cursor, fuel: u64) -> (r: Result<
        (Value, Option<ParseFailure>),
        ParseFailure,
    >)
        ensures
            agrees(
                r,
                eval_rule(self.grammar, i as int, old(cur).input(), old(cur).pos() as int, fuel as nat),
                *old(cur),
                *final(cur),
            ),
        decreases fuel, 2int,
    {
        let pos = cur.position();
        if i >= self.grammar.rules.len() {
            return Err(ParseFailure { position: pos, expected: String::new() });
        }
        let ghost input = cur.input();
        let ghost g = self.grammar;
        let rule = &self.grammar.rules[i];
        let mut best: Option<ParseFailure> = None;
        assert(eval_rule(g, i as int, input, pos as int, fuel as nat) == eval_variants(
            g,
            rule.variants@,
            0,
            input,
            pos as int,
            fuel as nat,
            None,
            rule.name@,
        ));
        let mut k: usize = 0;
        while k < rule.variants.len()
            invariant
                cur.input() == input,
                old(cur).input() == input,
                old(cur).pos() == pos,
                cur.pos() == pos,
                g == self.grammar,
                *rule == g.rules@[i as int],
                eval_rule(g, i as int, input, pos as int, fuel as nat) == eval_variants(
                    g,
                    rule.variants@,
                    0,
                    input,
                    pos as int,
                    fuel as nat,
                    None,
                    rule.name@,
                ),
                0 <= k <= rule.variants@.len(),
                eval_variants(
                    g,
                    rule.variants@,
                    k as int,
                    input,
                    pos as int,
                    fuel as nat,
                    fview(best),
                    rule.name@,
                ) == eval_variants(
                    g,
                    rule.variants@,
                    0,
                    input,
                    pos as int,
                    fuel as nat,
                    None,
                    rule.name@,
                ),
            decreases rule.variants@.len() - k,
        {
            let variant = &rule.variants[k];
            match self.run_seq(&variant.pattern, cur, fuel) {
                Ok((env, f)) => {
                    return Ok((run_action(&variant.action, &env), deeper_of(best, f)));
                },
                Err(err) => {
                    best = deeper_of(best, Some(err));
                },
            }
            k = k + 1;
        }
        match best {
            Some(b) => if b.position > pos {
                Err(b)
            } else {
                Err(ParseFailure { position: pos, expected: rule.name.clone() })
            },
            None => Err(ParseFailure { position: pos, expected: rule.name.clone() }),
        }
    }

    fn call_rule(&self, name: &str, cur: &mut Cursor) -> (r: Result<
        (Value, Option<ParseFailure>),
        ParseFailure,
    >)
        ensures
            agrees(
                r,
                eval_call(self.grammar, name@, old(cur).input(), old(cur).pos() as int, self.recursion_limit as nat),
                *old(cur),
                *final(cur),
            ),
    {
        let pos = cur.position();
        let n = String::from_str(name);
        proof {
            lemma_find_name(rule_names(self.grammar.rules@), n@);
        }
        match find_rule(&self.grammar.rules, &n) {
            Some(i) => if self.grammar.rules[i].is_pub {
                self.run_rule(i, cur, self.recursion_limit)
            } else {
                Err(ParseFailure { position: pos, expected: n })
            },
            None => Err(ParseFailure { position: pos, expected: n }),
        }
    }

    /// Runs the public rule `name` at the cursor. On success the cursor ends
    /// where the match ends; on failure it is back where it was.
    pub fn parse_rule(&self, name: &str, cur: &mut Cursor) -> (r: Result<Value, ParseFailure>)
        ensures
            final(cur).input() == old(cur).input(),
            match eval_call(self.grammar(), name@, old(cur).input(), old(cur).pos() as int, self.depth_limit() as nat) {
                Step::Matched(v, e, _) => r is Ok && model_of(r->Ok_0) == v && final(cur).pos() == e,
                Step::Failed(q, x) => r is Err && r->Err_0.position == q && r->Err_0.expected@ == x,
            },
            r is Err ==> final(cur).pos() == old(cur).pos(),
    {
        match self.call_rule(name, cur) {
            Ok((v, _)) => Ok(v),
            Err(e) => Err(e),
        }
    }

    /// Runs the public rule `name` over the whole of `input`.
    pub fn parse(&self, name: &str, input: &str) -> (r: Result<Value, ParseFailure>)
        ensures
            match eval_entry(self.grammar(), name@, input@, self.depth_limit() as nat) {
                Step::Matched(v, _, _) => r is Ok && model_of(r->Ok_0) == v,
                Step::Failed(q, x) => r is Err && r->Err_0.position == q && r->Err_0.expected@ == x,
            },
    {
        let mut cur = Cursor::new(input);
        match self.call_rule(name, &mut cur) {
            Ok((v, far)) => {
                let e = cur.position();
                let end = self.skip_from(&cur, e);
                if end == cur.len() {
                    Ok(v)
                } else {
                    Err(deeper_failure(far, failure(end, "end of input")))
                }
            },
            Err(err) => Err(err),
        }
    }
}

} // verus!
