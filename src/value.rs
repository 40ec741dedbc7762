//! The values that rules produce.
use vstd::prelude::*;

verus! {

/// A value built by a rule's action, or by a pattern on its way there.
#[derive(Debug, PartialEq, Eq)]
pub enum Value {
    Unit,
    /// The text a literal or a primitive matched.
    Text(String),
    /// The items of a repetition, in order.
    List(Vec<Value>),
    /// An optional pattern that did not match, or a name with no binding.
    Absent,
    /// An optional pattern that matched.
    Present(Box<Value>),
    /// A tagged node built by an action.
    Node(String, Vec<Value>),
}

/// A value as a mathematical object.
pub ghost enum ValueModel {
    Unit,
    Text(Seq<char>),
    List(Seq<ValueModel>),
    Absent,
    Present(Box<ValueModel>),
    Node(Seq<char>, Seq<ValueModel>),
}

pub open spec fn model_of(v: Value) -> ValueModel
    decreases v, 0int,
{
    match v {
        Value::Unit => ValueModel::Unit,
        Value::Text(s) => ValueModel::Text(s@),
        Value::List(vs) => ValueModel::List(models_upto(vs@, vs@.len() as int)),
        Value::Absent => ValueModel::Absent,
        Value::Present(b) => ValueModel::Present(Box::new(model_of(*b))),
        Value::Node(t, vs) => ValueModel::Node(t@, models_upto(vs@, vs@.len() as int)),
    }
}

/// The models of the first `n` values.
pub open spec fn models_upto(vs: Seq<Value>, n: int) -> Seq<ValueModel>
    decreases vs, n,
{
    if n <= 0 || n > vs.len() {
        Seq::empty()
    } else {
        models_upto(vs, n - 1).push(model_of(vs[n - 1]))
    }
}

pub open spec fn models_of(vs: Seq<Value>) -> Seq<ValueModel> {
    models_upto(vs, vs.len() as int)
}

proof fn lemma_models_upto_prefix(s: Seq<Value>, x: Value, n: int)
    requires
        0 <= n <= s.len(),
    ensures
        models_upto(s.push(x), n) == models_upto(s, n),
    decreases n,
{
    if n > 0 {
        lemma_models_upto_prefix(s, x, n - 1);
        assert(s.push(x)[n - 1] == s[n - 1]);
    }
}

pub proof fn lemma_models_push(s: Seq<Value>, x: Value)
    ensures
        models_of(s.push(x)) == models_of(s).push(model_of(x)),
{
    lemma_models_upto_prefix(s, x, s.len() as int);
    assert(s.push(x)[s.len() as int] == x);
}

proof fn lemma_models_upto_len(s: Seq<Value>, n: int)
    requires
        0 <= n <= s.len(),
    ensures
        models_upto(s, n).len() == n,
    decreases n,
{
    if n > 0 {
        lemma_models_upto_len(s, n - 1);
    }
}

pub proof fn lemma_models_len(s: Seq<Value>)
    ensures
        models_of(s).len() == s.len(),
{
    lemma_models_upto_len(s, s.len() as int);
}

proof fn lemma_models_upto_index(s: Seq<Value>, n: int, i: int)
    requires
        0 <= i < n <= s.len(),
    ensures
        models_upto(s, n)[i] == model_of(s[i]),
    decreases n,
{
    lemma_models_upto_len(s, n - 1);
    if i < n - 1 {
        lemma_models_upto_index(s, n - 1, i);
    }
}

pub proof fn lemma_models_index(s: Seq<Value>, i: int)
    requires
        0 <= i < s.len(),
    ensures
        models_of(s)[i] == model_of(s[i]),
{
    lemma_models_upto_index(s, s.len() as int, i);
}

/// A copy of `v` with the same model.
pub fn copy_value(v: &Value) -> (r: Value)
    ensures
        model_of(r) == model_of(*v),
    decreases v, 0int,
{
    match v {
        Value::Unit => Value::Unit,
        Value::Text(s) => Value::Text(s.clone()),
        Value::List(vs) => Value::List(copy_values(vs)),
        Value::Absent => Value::Absent,
        Value::Present(b) => Value::Present(Box::new(copy_value(b))),
        Value::Node(t, vs) => Value::Node(t.clone(), copy_values(vs)),
    }
}

/// A copy of each of `vs`, in order.
pub fn copy_values(vs: &Vec<Value>) -> (r: Vec<Value>)
    ensures
        models_of(r@) == models_of(vs@),
    decreases vs, 1int,
{
    let mut out: Vec<Value> = Vec::new();
    let mut i: usize = 0;
    while i < vs.len()
        invariant
            0 <= i <= vs.len(),
            models_of(out@) == models_upto(vs@, i as int),
        decreases vs.len() - i,
    {
        let c = copy_value(&vs[i]);
        proof {
            lemma_models_push(out@, c);
        }
        out.push(c);
        i = i + 1;
    }
    out
}

} // verus!
