//! Rendering payload values and workflow plans as JSON text, and reading a
//! workflow plan back.
//!
//! The encoder is specified character by character. The reader accepts
//! exactly the encoder's output format: whatever it accepts it re-encodes and
//! compares, so a successful parse proves the input was a well-formed plan
//! encoding.

use vstd::prelude::*;

use crate::llm_client::{WorkflowStep, WorkflowStepModel, step_models, string_models};
use crate::text::{spec_u64_string, str_eq, u64_to_string};
use crate::value::{ValModel, Value};

verus! {

/// The escape of one character inside a JSON string literal.
pub open spec fn esc_char(c: char) -> Seq<char> {
    if c == '"' {
        seq!['\\', '"']
    } else if c == '\\' {
        seq!['\\', '\\']
    } else if c == '\n' {
        seq!['\\', 'n']
    } else if c == '\t' {
        seq!['\\', 't']
    } else if c == '\r' {
        seq!['\\', 'r']
    } else {
        seq![c]
    }
}

/// The escaped body of a JSON string literal.
pub open spec fn json_escape(s: Seq<char>) -> Seq<char>
    decreases s.len(),
{
    if s.len() == 0 {
        Seq::empty()
    } else {
        json_escape(s.drop_last()) + esc_char(s.last())
    }
}

/// A JSON string literal.
pub open spec fn str_json(s: Seq<char>) -> Seq<char> {
    seq!['"'] + json_escape(s) + seq!['"']
}

/// The decimal rendering of a signed integer.
pub open spec fn spec_i64_string(n: i64) -> Seq<char> {
    if n >= 0 {
        spec_u64_string(n as u64)
    } else {
        seq!['-'] + spec_u64_string((-(n as int)) as u64)
    }
}

/// The JSON text of a payload value.
pub open spec fn json_of(v: ValModel) -> Seq<char>
    decreases v,
{
    match v {
        ValModel::Null => "null"@,
        ValModel::Bool(b) => if b {
            "true"@
        } else {
            "false"@
        },
        ValModel::Int(i) => spec_i64_string(i),
        ValModel::Str(s) => str_json(s),
        ValModel::Arr(items) => seq!['['] + json_items(items) + seq![']'],
        ValModel::Obj(pairs) => seq!['{'] + json_members(pairs) + seq!['}'],
    }
}

/// The comma-separated renderings of array elements.
pub open spec fn json_items(items: Seq<ValModel>) -> Seq<char>
    decreases items,
{
    if items.len() == 0 {
        Seq::empty()
    } else if items.len() == 1 {
        json_of(items[0])
    } else {
        json_items(items.drop_last()) + ", "@ + json_of(items.last())
    }
}

/// The comma-separated renderings of object members.
pub open spec fn json_members(pairs: Seq<(Seq<char>, ValModel)>) -> Seq<char>
    decreases pairs,
{
    if pairs.len() == 0 {
        Seq::empty()
    } else if pairs.len() == 1 {
        str_json(pairs[0].0) + ": "@ + json_of(pairs[0].1)
    } else {
        json_members(pairs.drop_last()) + ", "@ + str_json(pairs.last().0) + ": "@ + json_of(
            pairs.last().1,
        )
    }
}

/// Appending characters that need no escape appends them unchanged.
proof fn lemma_escape_plain(s: Seq<char>, a: int, b: int)
    requires
        0 <= a <= b <= s.len(),
        forall|j: int| a <= j < b ==> esc_char(#[trigger] s[j]) == seq![s[j]],
    ensures
        json_escape(s.take(b)) == json_escape(s.take(a)) + s.subrange(a, b),
    decreases b - a,
{
    if a == b {
        assert(json_escape(s.take(b)) =~= json_escape(s.take(a)) + s.subrange(a, b));
    } else {
        lemma_escape_plain(s, a, b - 1);
        assert(s.take(b).drop_last() =~= s.take(b - 1));
        assert(s.take(b).last() == s[b - 1]);
        assert(json_escape(s.take(b)) == json_escape(s.take(b - 1)) + esc_char(s[b - 1]));
        assert(json_escape(s.take(a)) + s.subrange(a, b - 1) + seq![s[b - 1]] =~= json_escape(
            s.take(a),
        ) + s.subrange(a, b));
    }
}

fn esc_fragment(c: char) -> (r: &'static str)
    requires
        c == '"' || c == '\\' || c == '\n' || c == '\t' || c == '\r',
    ensures
        r@ == esc_char(c),
{
    proof {
        reveal_strlit("\\\"");
        reveal_strlit("\\\\");
        reveal_strlit("\\n");
        reveal_strlit("\\t");
        reveal_strlit("\\r");
    }
    let r = if c == '"' {
        "\\\""
    } else if c == '\\' {
        "\\\\"
    } else if c == '\n' {
        "\\n"
    } else if c == '\t' {
        "\\t"
    } else {
        "\\r"
    };
    proof {
        assert(r@ =~= esc_char(c));
    }
    r
}

/// Escapes the body of a JSON string literal.
#[verifier::loop_isolation(false)]
pub fn json_escape_str(s: &str) -> (r: String)
    ensures
        r@ == json_escape(s@),
{
    let n = s.unicode_len();
    let mut out = String::new();
    let mut seg: usize = 0;
    let mut j: usize = 0;
    while j < n
        invariant
            n == s@.len(),
            seg <= j <= n,
            out@ == json_escape(s@.take(seg as int)),
            forall|k: int| seg <= k < j ==> esc_char(#[trigger] s@[k]) == seq![s@[k]],
        decreases n - j,
    {
        let c = s.get_char(j);
        if c == '"' || c == '\\' || c == '\n' || c == '\t' || c == '\r' {
            out.append(s.substring_char(seg, j));
            proof {
                lemma_escape_plain(s@, seg as int, j as int);
            }
            out.append(esc_fragment(c));
            proof {
                assert(s@.take(j + 1).drop_last() =~= s@.take(j as int));
                assert(out@ == json_escape(s@.take(j + 1)));
            }
            j += 1;
            seg = j;
        } else {
            j += 1;
        }
    }
    out.append(s.substring_char(seg, n));
    proof {
        lemma_escape_plain(s@, seg as int, n as int);
        assert(s@.take(n as int) =~= s@);
    }
    out
}

/// Renders a JSON string literal.
pub fn str_to_json(s: &str) -> (r: String)
    ensures
        r@ == str_json(s@),
{
    proof {
        reveal_strlit("\"");
    }
    let mut out = "\"".to_owned();
    proof {
        assert(out@ =~= seq!['"']);
    }
    let body = json_escape_str(s);
    out.append(body.as_str());
    out.append("\"");
    proof {
        assert(out@ =~= str_json(s@));
    }
    out
}

/// Renders a signed integer in decimal.
pub fn i64_to_string(n: i64) -> (r: String)
    ensures
        r@ == spec_i64_string(n),
{
    proof {
        reveal_strlit("-");
    }
    if n >= 0 {
        u64_to_string(n as u64)
    } else {
        let mag: u64 = if n == i64::MIN {
            9223372036854775808u64
        } else {
            (-n) as u64
        };
        proof {
            assert(mag == (-(n as int)) as u64);
        }
        let digits = u64_to_string(mag);
        let out = "-".to_owned();
        let out = out.concat(digits.as_str());
        proof {
            assert("-"@ =~= seq!['-']);
        }
        out
    }
}

/// Renders a payload value as JSON text.
#[verifier::loop_isolation(false)]
pub fn value_to_json(v: &Value) -> (r: String)
    ensures
        r@ == json_of(v@),
    decreases *v,
{
    proof {
        reveal_strlit("null");
        reveal_strlit("true");
        reveal_strlit("false");
    }
    match v {
        Value::Null => "null".to_owned(),
        Value::Bool(b) => if *b {
            "true".to_owned()
        } else {
            "false".to_owned()
        },
        Value::Int(i) => i64_to_string(*i),
        Value::Str(s) => str_to_json(s.as_str()),
        Value::Arr(items) => {
            let ghost models = crate::value::arr_model(items@);
            proof {
                crate::value::lemma_arr_model(items@);
            }
            let mut out = "[".to_owned();
            proof {
                reveal_strlit("[");
                reveal_strlit("]");
                reveal_strlit(", ");
                assert(out@ =~= seq!['[']);
                assert(models.take(0) =~= Seq::<ValModel>::empty());
                assert(out@ =~= seq!['['] + json_items(models.take(0)));
            }
            let mut i: usize = 0;
            while i < items.len()
                invariant
                    models.len() == items@.len(),
                    i <= items@.len(),
                    out@ == seq!['['] + json_items(models.take(i as int)),
                decreases items@.len() - i,
            {
                if i > 0 {
                    out.append(", ");
                }
                proof {
                    assert(decreases_to!(*v => *items));
                    assert(decreases_to!(*items => items@));
                    assert(decreases_to!(items@ => items@[i as int]));
                }
                let piece = value_to_json(&items[i]);
                out.append(piece.as_str());
                proof {
                    assert(models.take(i + 1).drop_last() =~= models.take(i as int));
                    assert(models.take(i + 1).last() == models[i as int]);
                    if i == 0 {
                        assert(json_items(models.take(1)) == json_of(models[0]));
                        assert(out@ =~= seq!['['] + json_items(models.take(1)));
                    } else {
                        assert(json_items(models.take(i + 1)) == json_items(models.take(i as int))
                            + ", "@ + json_of(models[i as int]));
                        assert(out@ =~= seq!['['] + json_items(models.take(i + 1)));
                    }
                }
                i += 1;
            }
            out.append("]");
            proof {
                assert(models.take(models.len() as int) =~= models);
                assert(out@ =~= json_of(v@));
            }
            out
        },
        Value::Obj(pairs) => {
            let ghost models = crate::value::obj_model(pairs@);
            proof {
                crate::value::lemma_obj_model(pairs@);
            }
            let mut out = "{".to_owned();
            proof {
                reveal_strlit("{");
                reveal_strlit("}");
                reveal_strlit(", ");
                reveal_strlit(": ");
                assert(out@ =~= seq!['{']);
                assert(models.take(0) =~= Seq::<(Seq<char>, ValModel)>::empty());
                assert(out@ =~= seq!['{'] + json_members(models.take(0)));
            }
            let mut i: usize = 0;
            while i < pairs.len()
                invariant
                    models.len() == pairs@.len(),
                    i <= pairs@.len(),
                    out@ == seq!['{'] + json_members(models.take(i as int)),
                decreases pairs@.len() - i,
            {
                if i > 0 {
                    out.append(", ");
                }
                let key_text = str_to_json(pairs[i].0.as_str());
                out.append(key_text.as_str());
                out.append(": ");
                proof {
                    assert(decreases_to!(*v => *pairs));
                    assert(decreases_to!(*pairs => pairs@));
                    assert(decreases_to!(pairs@ => pairs@[i as int]));
                    assert(decreases_to!(pairs@[i as int] => pairs@[i as int].1));
                }
                let piece = value_to_json(&pairs[i].1);
                out.append(piece.as_str());
                proof {
                    assert(models.take(i + 1).drop_last() =~= models.take(i as int));
                    assert(models.take(i + 1).last() == models[i as int]);
                    if i == 0 {
                        assert(json_members(models.take(1)) == str_json(models[0].0) + ": "@
                            + json_of(models[0].1));
                        assert(out@ =~= seq!['{'] + json_members(models.take(1)));
                    } else {
                        assert(json_members(models.take(i + 1)) == json_members(
                            models.take(i as int),
                        ) + ", "@ + str_json(models[i as int].0) + ": "@ + json_of(
                            models[i as int].1,
                        ));
                        assert(out@ =~= seq!['{'] + json_members(models.take(i + 1)));
                    }
                }
                i += 1;
            }
            out.append("}");
            proof {
                assert(models.take(models.len() as int) =~= models);
                assert(out@ =~= json_of(v@));
            }
            out
        },
    }
}

} // verus!

verus! {

/// The comma-separated renderings of a string array's elements.
pub open spec fn strs_inner(items: Seq<Seq<char>>) -> Seq<char>
    decreases items,
{
    if items.len() == 0 {
        Seq::empty()
    } else if items.len() == 1 {
        str_json(items[0])
    } else {
        strs_inner(items.drop_last()) + ", "@ + str_json(items.last())
    }
}

/// A JSON array of strings.
pub open spec fn strs_json(items: Seq<Seq<char>>) -> Seq<char> {
    seq!['['] + strs_inner(items) + seq![']']
}

/// The JSON object of one workflow step, with its five fields in a fixed
/// order.
pub open spec fn step_json(s: WorkflowStepModel) -> Seq<char> {
    "{\"step_id\": "@ + str_json(s.step_id) + ", \"agent_type\": "@ + str_json(s.agent_type)
        + ", \"action\": "@ + str_json(s.action) + ", \"inputs\": "@ + strs_json(s.inputs)
        + ", \"outputs\": "@ + strs_json(s.outputs) + seq!['}']
}

/// The comma-separated renderings of workflow steps.
pub open spec fn steps_inner(steps: Seq<WorkflowStepModel>) -> Seq<char>
    decreases steps,
{
    if steps.len() == 0 {
        Seq::empty()
    } else if steps.len() == 1 {
        step_json(steps[0])
    } else {
        steps_inner(steps.drop_last()) + ", "@ + step_json(steps.last())
    }
}

/// A JSON array of workflow steps: the wire form of a workflow plan.
pub open spec fn steps_json(steps: Seq<WorkflowStepModel>) -> Seq<char> {
    seq!['['] + steps_inner(steps) + seq![']']
}

/// Renders a JSON array of strings.
#[verifier::loop_isolation(false)]
fn strs_to_json(items: &Vec<String>) -> (r: String)
    ensures
        r@ == strs_json(string_models(items@)),
{
    let ghost models = string_models(items@);
    let mut out = "[".to_owned();
    proof {
        reveal_strlit("[");
        reveal_strlit("]");
        reveal_strlit(", ");
        assert(out@ =~= seq!['[']);
        assert(models.take(0) =~= Seq::<Seq<char>>::empty());
        assert(out@ =~= seq!['['] + strs_inner(models.take(0)));
    }
    let mut i: usize = 0;
    while i < items.len()
        invariant
            models == string_models(items@),
            models.len() == items@.len(),
            i <= items@.len(),
            out@ == seq!['['] + strs_inner(models.take(i as int)),
        decreases items@.len() - i,
    {
        if i > 0 {
            out.append(", ");
        }
        let piece = str_to_json(items[i].as_str());
        out.append(piece.as_str());
        proof {
            assert(models.take(i + 1).drop_last() =~= models.take(i as int));
            assert(models.take(i + 1).last() == models[i as int]);
            if i == 0 {
                assert(out@ =~= seq!['['] + strs_inner(models.take(1)));
            } else {
                assert(out@ =~= seq!['['] + strs_inner(models.take(i + 1)));
            }
        }
        i += 1;
    }
    out.append("]");
    proof {
        assert(models.take(models.len() as int) =~= models);
        assert(out@ =~= strs_json(models));
    }
    out
}

/// Renders one workflow step.
fn workflow_step_to_json(s: &WorkflowStep) -> (r: String)
    ensures
        r@ == step_json(s@),
{
    let mut out = "{\"step_id\": ".to_owned();
    let piece = str_to_json(s.step_id.as_str());
    out.append(piece.as_str());
    out.append(", \"agent_type\": ");
    let piece = str_to_json(s.agent_type.as_str());
    out.append(piece.as_str());
    out.append(", \"action\": ");
    let piece = str_to_json(s.action.as_str());
    out.append(piece.as_str());
    out.append(", \"inputs\": ");
    let piece = strs_to_json(&s.inputs);
    out.append(piece.as_str());
    out.append(", \"outputs\": ");
    let piece = strs_to_json(&s.outputs);
    out.append(piece.as_str());
    out.append("}");
    proof {
        reveal_strlit("}");
        assert(out@ =~= step_json(s@));
    }
    out
}

/// Renders a workflow plan: the exact wire form the plan reader accepts.
#[verifier::loop_isolation(false)]
#[verifier::rlimit(50)]
pub fn workflow_steps_to_json(steps: &Vec<WorkflowStep>) -> (r: String)
    ensures
        r@ == steps_json(step_models(steps@)),
{
    let ghost models = step_models(steps@);
    let mut out = "[".to_owned();
    proof {
        reveal_strlit("[");
        reveal_strlit("]");
        reveal_strlit(", ");
        assert(out@ =~= seq!['[']);
        assert(models.take(0) =~= Seq::<WorkflowStepModel>::empty());
        assert(out@ =~= seq!['['] + steps_inner(models.take(0)));
    }
    let mut i: usize = 0;
    while i < steps.len()
        invariant
            models == step_models(steps@),
            models.len() == steps@.len(),
            i <= steps@.len(),
            out@ == seq!['['] + steps_inner(models.take(i as int)),
        decreases steps@.len() - i,
    {
        if i > 0 {
            out.append(", ");
        }
        let piece = workflow_step_to_json(&steps[i]);
        out.append(piece.as_str());
        proof {
            assert(models.take(i + 1).drop_last() =~= models.take(i as int));
            assert(models.take(i + 1).last() == models[i as int]);
            if i == 0 {
                assert(out@ =~= seq!['['] + steps_inner(models.take(1)));
            } else {
                assert(out@ =~= seq!['['] + steps_inner(models.take(i + 1)));
            }
        }
        i += 1;
    }
    out.append("]");
    proof {
        assert(models.take(models.len() as int) =~= models);
        assert(out@ =~= steps_json(models));
    }
    out
}

/// Whether every character of `x` stands for itself inside a JSON string
/// literal: no quote, backslash, or control character that the encoder would
/// escape. The canonical plan wire form uses only such strings.
pub open spec fn plain_text(x: Seq<char>) -> bool {
    forall|t: int| 0 <= t < x.len() ==> esc_char(#[trigger] x[t]) == seq![x[t]]
}

/// Every string of the list is plain.
pub open spec fn plain_texts(items: Seq<Seq<char>>) -> bool {
    forall|j: int| 0 <= j < items.len() ==> plain_text(#[trigger] items[j])
}

/// Every string of the step is plain.
pub open spec fn step_plain(m: WorkflowStepModel) -> bool {
    &&& plain_text(m.step_id)
    &&& plain_text(m.agent_type)
    &&& plain_text(m.action)
    &&& plain_texts(m.inputs)
    &&& plain_texts(m.outputs)
}

/// Every string of the plan is plain.
pub open spec fn plan_plain(sm: Seq<WorkflowStepModel>) -> bool {
    forall|j: int| 0 <= j < sm.len() ==> step_plain(#[trigger] sm[j])
}

/// `t` occurs at position `i` of `s`.
pub open spec fn text_at(s: Seq<char>, i: int, t: Seq<char>) -> bool {
    0 <= i && i + t.len() <= s.len() && s.subrange(i, i + t.len()) == t
}

/// Occurrence of a concatenation splits into occurrences of the parts.
pub proof fn lemma_at_concat(s: Seq<char>, i: int, a: Seq<char>, b: Seq<char>)
    ensures
        text_at(s, i, a + b) <==> (text_at(s, i, a) && text_at(s, i + a.len(), b)),
{
    if text_at(s, i, a + b) {
        assert forall|k: int| 0 <= k < a.len() implies s[i + k] == a[k] by {
            assert(s.subrange(i, i + (a + b).len())[k] == (a + b)[k]);
        }
        assert forall|k: int| 0 <= k < b.len() implies s[i + a.len() + k] == b[k] by {
            assert(s.subrange(i, i + (a + b).len())[a.len() + k] == (a + b)[a.len() + k]);
        }
        assert(s.subrange(i, i + a.len()) =~= a);
        assert(s.subrange(i + a.len(), i + a.len() + b.len()) =~= b);
    }
    if text_at(s, i, a) && text_at(s, i + a.len(), b) {
        assert forall|k: int| 0 <= k < (a + b).len() implies s.subrange(
            i,
            i + (a + b).len(),
        )[k] == (a + b)[k] by {
            if k < a.len() {
                assert(s.subrange(i, i + a.len())[k] == a[k]);
            } else {
                assert(s.subrange(i + a.len(), i + a.len() + b.len())[k - a.len()] == b[k
                    - a.len()]);
            }
        }
        assert(s.subrange(i, i + (a + b).len()) =~= a + b);
    }
}

/// An occurrence pins the first character.
pub proof fn lemma_at_first(s: Seq<char>, i: int, t: Seq<char>)
    requires
        text_at(s, i, t),
        t.len() >= 1,
    ensures
        s[i] == t[0],
{
    assert(s.subrange(i, i + t.len())[0] == t[0]);
}

/// A plain string's literal is the string between two quotes.
pub proof fn lemma_plain_str_json(x: Seq<char>)
    requires
        plain_text(x),
    ensures
        str_json(x) == seq!['"'] + x + seq!['"'],
{
    lemma_escape_plain(x, 0, x.len() as int);
    assert(x.take(x.len() as int) =~= x);
    assert(x.take(0) =~= Seq::<char>::empty());
    assert(json_escape(x) =~= x);
}

/// The tail of a string-array literal after its opening bracket: the
/// comma-separated items and the closing bracket.
pub open spec fn strs_rest(items: Seq<Seq<char>>) -> Seq<char>
    decreases items.len(),
{
    if items.len() == 0 {
        seq![']']
    } else if items.len() == 1 {
        str_json(items[0]) + seq![']']
    } else {
        str_json(items[0]) + ", "@ + strs_rest(items.skip(1))
    }
}

/// The comma-separated items split off their head.
pub proof fn lemma_strs_inner_cons(items: Seq<Seq<char>>)
    requires
        items.len() >= 2,
    ensures
        strs_inner(items) == str_json(items[0]) + ", "@ + strs_inner(items.skip(1)),
    decreases items.len(),
{
    if items.len() == 2 {
        assert(items.drop_last() =~= seq![items[0]]);
        assert(items.skip(1) =~= seq![items[1]]);
        assert(strs_inner(items.drop_last()) == str_json(items.drop_last()[0]));
        assert(strs_inner(items.skip(1)) == str_json(items.skip(1)[0]));
        assert(strs_inner(items) =~= str_json(items[0]) + ", "@ + strs_inner(items.skip(1)));
    } else {
        lemma_strs_inner_cons(items.drop_last());
        assert(items.drop_last()[0] == items[0]);
        assert(items.drop_last().skip(1) =~= items.skip(1).drop_last());
        assert(items.skip(1).last() == items.last());
        assert(strs_inner(items.skip(1)) == strs_inner(items.skip(1).drop_last()) + ", "@
            + str_json(items.skip(1).last()));
        assert(strs_inner(items) =~= str_json(items[0]) + ", "@ + strs_inner(items.skip(1)));
    }
}

/// A string-array literal is its opening bracket followed by its tail.
pub proof fn lemma_strs_rest(items: Seq<Seq<char>>)
    ensures
        strs_json(items) == seq!['['] + strs_rest(items),
    decreases items.len(),
{
    if items.len() == 0 {
        assert(strs_json(items) =~= seq!['['] + strs_rest(items));
    } else if items.len() == 1 {
        assert(strs_json(items) =~= seq!['['] + strs_rest(items));
    } else {
        lemma_strs_inner_cons(items);
        lemma_strs_rest(items.skip(1));
        assert(strs_rest(items) == str_json(items[0]) + ", "@ + strs_rest(items.skip(1)));
        assert(strs_json(items.skip(1)) == seq!['['] + strs_rest(items.skip(1)));
        assert(seq!['['] + strs_rest(items.skip(1)) =~= seq!['['] + (strs_inner(items.skip(1))
            + seq![']']));
        crate::text::lemma_prefix_injective(
            seq!['['],
            strs_rest(items.skip(1)),
            strs_inner(items.skip(1)) + seq![']'],
        );
        assert(strs_json(items) =~= seq!['['] + strs_rest(items));
    }
}

/// The tail of a plan literal after its opening bracket.
pub open spec fn steps_rest(steps: Seq<WorkflowStepModel>) -> Seq<char>
    decreases steps.len(),
{
    if steps.len() == 0 {
        seq![']']
    } else if steps.len() == 1 {
        step_json(steps[0]) + seq![']']
    } else {
        step_json(steps[0]) + ", "@ + steps_rest(steps.skip(1))
    }
}

/// The comma-separated steps split off their head.
pub proof fn lemma_steps_inner_cons(steps: Seq<WorkflowStepModel>)
    requires
        steps.len() >= 2,
    ensures
        steps_inner(steps) == step_json(steps[0]) + ", "@ + steps_inner(steps.skip(1)),
    decreases steps.len(),
{
    if steps.len() == 2 {
        assert(steps.drop_last() =~= seq![steps[0]]);
        assert(steps.skip(1) =~= seq![steps[1]]);
        assert(steps_inner(steps.drop_last()) == step_json(steps.drop_last()[0]));
        assert(steps_inner(steps.skip(1)) == step_json(steps.skip(1)[0]));
        assert(steps_inner(steps) =~= step_json(steps[0]) + ", "@ + steps_inner(steps.skip(1)));
    } else {
        lemma_steps_inner_cons(steps.drop_last());
        assert(steps.drop_last()[0] == steps[0]);
        assert(steps.drop_last().skip(1) =~= steps.skip(1).drop_last());
        assert(steps.skip(1).last() == steps.last());
        assert(steps_inner(steps.skip(1)) == steps_inner(steps.skip(1).drop_last()) + ", "@
            + step_json(steps.skip(1).last()));
        assert(steps_inner(steps) =~= step_json(steps[0]) + ", "@ + steps_inner(steps.skip(1)));
    }
}

/// A plan literal is its opening bracket followed by its tail.
pub proof fn lemma_steps_rest(steps: Seq<WorkflowStepModel>)
    ensures
        steps_json(steps) == seq!['['] + steps_rest(steps),
    decreases steps.len(),
{
    if steps.len() == 0 {
        assert(steps_json(steps) =~= seq!['['] + steps_rest(steps));
    } else if steps.len() == 1 {
        assert(steps_json(steps) =~= seq!['['] + steps_rest(steps));
    } else {
        lemma_steps_inner_cons(steps);
        lemma_steps_rest(steps.skip(1));
        assert(steps_rest(steps) == step_json(steps[0]) + ", "@ + steps_rest(steps.skip(1)));
        assert(steps_json(steps.skip(1)) == seq!['['] + steps_rest(steps.skip(1)));
        assert(seq!['['] + steps_rest(steps.skip(1)) =~= seq!['['] + (steps_inner(steps.skip(1))
            + seq![']']));
        crate::text::lemma_prefix_injective(
            seq!['['],
            steps_rest(steps.skip(1)),
            steps_inner(steps.skip(1)) + seq![']'],
        );
        assert(steps_json(steps) =~= seq!['['] + steps_rest(steps));
    }
}

/// Advances past `lit` at position `i` exactly when `lit` is there.
#[verifier::loop_isolation(false)]
fn expect_lit(s: &str, i: usize, lit: &str) -> (r: Option<usize>)
    ensures
        r matches Some(k) ==> text_at(s@, i as int, lit@) && k == i + lit@.len(),
        text_at(s@, i as int, lit@) ==> (r matches Some(k) && k == i + lit@.len()),
{
    let n = s.unicode_len();
    let m = lit.unicode_len();
    if i > n || m > n - i {
        return None;
    }
    let mut j: usize = 0;
    while j < m
        invariant
            n == s@.len(),
            m == lit@.len(),
            i + m <= n,
            j <= m,
            forall|k: int| 0 <= k < j ==> s@[i + k] == lit@[k],
        decreases m - j,
    {
        if s.get_char(i + j) != lit.get_char(j) {
            proof {
                assert(!text_at(s@, i as int, lit@)) by {
                    if text_at(s@, i as int, lit@) {
                        assert(s@.subrange(i as int, i + lit@.len())[j as int] == lit@[j as int]);
                    }
                }
            }
            return None;
        }
        j += 1;
    }
    proof {
        assert(s@.subrange(i as int, i + lit@.len()) =~= lit@);
    }
    Some(i + m)
}

/// Finds the closing quote of a plain string body that starts at `from`:
/// scans over plain characters and stops at the first quote; anything the
/// encoder would have escaped ends the search empty-handed.
#[verifier::loop_isolation(false)]
fn find_quote(s: &str, from: usize) -> (r: Option<usize>)
    ensures
        r matches Some(idx) ==> {
            &&& from <= idx < s@.len()
            &&& s@[idx as int] == '"'
            &&& forall|t: int|
                from <= t < idx ==> esc_char(#[trigger] s@[t]) == seq![s@[t]]
        },
        forall|x: Seq<char>|
            plain_text(x) && text_at(s@, from as int, x + seq!['"']) ==> (r matches Some(idx)
                && idx == from + x.len()),
{
    let n = s.unicode_len();
    if from > n {
        proof {
            assert forall|x: Seq<char>|
                plain_text(x) && text_at(s@, from as int, x + seq!['"']) implies false by {}
        }
        return None;
    }
    let mut i: usize = from;
    while i < n
        invariant
            n == s@.len(),
            from <= i <= n,
            forall|t: int|
                from <= t < i ==> esc_char(#[trigger] s@[t]) == seq![s@[t]] && s@[t] != '"',
        decreases n - i,
    {
        let c = s.get_char(i);
        if c == '"' {
            proof {
                assert forall|x: Seq<char>|
                    plain_text(x) && text_at(s@, from as int, x + seq!['"']) implies i == from
                    + x.len() by {
                    if from + x.len() < i {
                        assert(s@[from + x.len()] == (x + seq!['"'])[x.len() as int]);
                        assert(s@[from + x.len()] == '"');
                    }
                    if from + x.len() > i {
                        assert(s@[i as int] == (x + seq!['"'])[i - from]);
                        assert(s@[i as int] == x[i - from]);
                        assert(esc_char('"') == seq!['"']);
                    }
                }
            }
            return Some(i);
        }
        if c == '\\' || c == '\n' || c == '\t' || c == '\r' {
            proof {
                assert forall|x: Seq<char>|
                    plain_text(x) && text_at(s@, from as int, x + seq!['"']) implies false by {
                    if i - from < x.len() {
                        assert(s@[i as int] == (x + seq!['"'])[i - from]);
                        assert(s@[i as int] == x[i - from]);
                        assert(esc_char(x[i - from]) == seq![x[i - from]]);
                    } else {
                        assert(s@[from + x.len()] == (x + seq!['"'])[x.len() as int]);
                        assert(s@[from + x.len()] == '"');
                        assert(from + x.len() >= i);
                        if from + x.len() == i {
                            assert(s@[i as int] == '"');
                        } else {
                            assert(s@[from + x.len()] != '"');
                        }
                    }
                }
            }
            return None;
        }
        i += 1;
    }
    proof {
        assert forall|x: Seq<char>|
            plain_text(x) && text_at(s@, from as int, x + seq!['"']) implies false by {
            assert(s@[from + x.len()] == (x + seq!['"'])[x.len() as int]);
            assert(s@[from + x.len()] == '"');
        }
    }
    None
}

/// Reads one plain string literal at `i`: sound — what comes back is exactly
/// the literal at `i` — and complete — a plain literal at `i` is read.
fn parse_string(s: &str, i: usize) -> (r: Option<(String, usize)>)
    ensures
        r matches Some(p) ==> {
            &&& plain_text(p.0@)
            &&& text_at(s@, i as int, str_json(p.0@))
            &&& p.1 == i + str_json(p.0@).len()
            &&& i < p.1 <= s@.len()
        },
        forall|x: Seq<char>|
            plain_text(x) && text_at(s@, i as int, str_json(x)) ==> (r matches Some(p) && p.0@ == x
                && p.1 == i + str_json(x).len()),
{
    let n = s.unicode_len();
    if i >= n || s.get_char(i) != '"' {
        proof {
            assert forall|x: Seq<char>|
                plain_text(x) && text_at(s@, i as int, str_json(x)) implies false by {
                lemma_plain_str_json(x);
                lemma_at_first(s@, i as int, str_json(x));
            }
        }
        return None;
    }
    match find_quote(s, i + 1) {
        Some(idx) => {
            let content = s.substring_char(i + 1, idx).to_owned();
            proof {
                assert(content@ =~= s@.subrange(i + 1, idx as int));
                assert(plain_text(content@));
                lemma_plain_str_json(content@);
                assert(s@.subrange(i as int, idx + 1) =~= seq!['"'] + content@ + seq!['"']);
                assert(text_at(s@, i as int, str_json(content@)));
                assert forall|x: Seq<char>|
                    plain_text(x) && text_at(s@, i as int, str_json(x)) implies content@ == x
                    && idx + 1 == i + str_json(x).len() by {
                    lemma_plain_str_json(x);
                    assert(str_json(x) =~= seq!['"'] + (x + seq!['"']));
                    lemma_at_concat(s@, i as int, seq!['"'], x + seq!['"']);
                    assert(idx == i + 1 + x.len());
                    assert(content@ =~= x);
                }
            }
            Some((content, idx + 1))
        },
        None => {
            proof {
                assert forall|x: Seq<char>|
                    plain_text(x) && text_at(s@, i as int, str_json(x)) implies false by {
                    lemma_plain_str_json(x);
                    assert(str_json(x) =~= seq!['"'] + (x + seq!['"']));
                    lemma_at_concat(s@, i as int, seq!['"'], x + seq!['"']);
                }
            }
            None
        },
    }
}
} // verus!

verus! {

/// Reads the items and closing bracket of a nonempty plain string array:
/// sound — what comes back is exactly the tail at `i` — and complete — a
/// plain nonempty tail at `i` is read.
#[verifier::spinoff_prover]
fn parse_str_items(s: &str, i: usize) -> (r: Option<(Vec<String>, usize)>)
    ensures
        r matches Some(p) ==> {
            &&& p.0@.len() >= 1
            &&& plain_texts(string_models(p.0@))
            &&& text_at(s@, i as int, strs_rest(string_models(p.0@)))
            &&& p.1 == i + strs_rest(string_models(p.0@)).len()
            &&& i < p.1 <= s@.len()
        },
        forall|items: Seq<Seq<char>>|
            items.len() >= 1 && plain_texts(items) && text_at(s@, i as int, strs_rest(items))
                ==> (r matches Some(p) && string_models(p.0@) == items && p.1 == i + strs_rest(
                items,
            ).len()),
    decreases s@.len() - i,
{
    let n = s.unicode_len();
    let (first, pos) = match parse_string(s, i) {
        Some(p) => p,
        None => {
            proof {
                assert forall|items: Seq<Seq<char>>|
                    items.len() >= 1 && plain_texts(items) && text_at(
                        s@,
                        i as int,
                        strs_rest(items),
                    ) implies false by {
                    if items.len() == 1 {
                        lemma_at_concat(s@, i as int, str_json(items[0]), seq![']']);
                    } else {
                        lemma_at_concat(
                            s@,
                            i as int,
                            str_json(items[0]),
                            ", "@ + strs_rest(items.skip(1)),
                        );
                        assert(strs_rest(items) =~= str_json(items[0]) + (", "@ + strs_rest(
                            items.skip(1),
                        )));
                    }
                    assert(text_at(s@, i as int, str_json(items[0])));
                }
            }
            return None;
        },
    };
    if pos < n && s.get_char(pos) == ']' {
        let mut single: Vec<String> = Vec::new();
        single.push(first);
        let ghost models = string_models(single@);
        proof {
            assert(models =~= seq![single@[0]@]);
            assert(plain_texts(models)) by {
                assert(forall|j: int| 0 <= j < models.len() ==> #[trigger] models[j] == first@);
            }
            assert(s@.subrange(pos as int, pos + 1) =~= seq![']']);
            lemma_at_concat(s@, i as int, str_json(first@), seq![']']);
            assert(text_at(s@, i as int, strs_rest(models)));
            assert forall|items: Seq<Seq<char>>|
                items.len() >= 1 && plain_texts(items) && text_at(
                    s@,
                    i as int,
                    strs_rest(items),
                ) implies models == items && pos + 1 == i + strs_rest(items).len() by {
                if items.len() >= 2 {
                    lemma_at_concat(
                        s@,
                        i as int,
                        str_json(items[0]),
                        ", "@ + strs_rest(items.skip(1)),
                    );
                    assert(strs_rest(items) =~= str_json(items[0]) + (", "@ + strs_rest(
                        items.skip(1),
                    )));
                    assert(text_at(s@, i as int, str_json(items[0])));
                    assert(first@ == items[0] && pos == i + str_json(items[0]).len());
                    proof_comma_is_not_bracket();
                    lemma_at_concat(s@, pos as int, ", "@, strs_rest(items.skip(1)));
                    lemma_at_first(s@, pos as int, ", "@);
                } else {
                    lemma_at_concat(s@, i as int, str_json(items[0]), seq![']']);
                    assert(text_at(s@, i as int, str_json(items[0])));
                    assert(first@ == items[0]);
                    assert(models =~= items);
                }
            }
        }
        return Some((single, pos + 1));
    }
    let pos2 = match expect_lit(s, pos, ", ") {
        Some(k) => k,
        None => {
            proof {
                assert forall|items: Seq<Seq<char>>|
                    items.len() >= 1 && plain_texts(items) && text_at(
                        s@,
                        i as int,
                        strs_rest(items),
                    ) implies false by {
                    if items.len() == 1 {
                        lemma_at_concat(s@, i as int, str_json(items[0]), seq![']']);
                        assert(first@ == items[0] && pos == i + str_json(items[0]).len());
                        lemma_at_first(s@, pos as int, seq![']']);
                        assert(pos < n);
                    } else {
                        lemma_at_concat(
                            s@,
                            i as int,
                            str_json(items[0]),
                            ", "@ + strs_rest(items.skip(1)),
                        );
                        assert(strs_rest(items) =~= str_json(items[0]) + (", "@ + strs_rest(
                            items.skip(1),
                        )));
                        assert(first@ == items[0] && pos == i + str_json(items[0]).len());
                        lemma_at_concat(s@, pos as int, ", "@, strs_rest(items.skip(1)));
                        assert(text_at(s@, pos as int, ", "@));
                    }
                }
            }
            return None;
        },
    };
    match parse_str_items(s, pos2) {
        Some(p2) => {
            let (rest, end) = p2;
            let mut out = rest;
            out.insert(0, first);
            let ghost models = string_models(out@);
            proof {
                assert(models.len() >= 2);
                assert(models[0] == first@);
                assert(plain_texts(models)) by {
                    assert(forall|j: int|
                        1 <= j < models.len() ==> #[trigger] models[j] == string_models(p2.0@)[j
                            - 1]);
                }
                assert(models.skip(1) =~= string_models(out@.skip(1)));
                assert(out@.skip(1) =~= p2.0@);
                assert(models.skip(1) =~= string_models(p2.0@));
                assert(strs_rest(models) == str_json(models[0]) + ", "@ + strs_rest(
                    models.skip(1),
                ));
                lemma_at_concat(s@, pos as int, ", "@, strs_rest(string_models(p2.0@)));
                lemma_at_concat(
                    s@,
                    i as int,
                    str_json(first@),
                    ", "@ + strs_rest(string_models(p2.0@)),
                );
                assert(strs_rest(models) =~= str_json(first@) + (", "@ + strs_rest(
                    string_models(p2.0@),
                )));
                assert(text_at(s@, i as int, strs_rest(models)));
                assert forall|items: Seq<Seq<char>>|
                    items.len() >= 1 && plain_texts(items) && text_at(
                        s@,
                        i as int,
                        strs_rest(items),
                    ) implies models == items && end == i + strs_rest(items).len() by {
                    if items.len() == 1 {
                        lemma_at_concat(s@, i as int, str_json(items[0]), seq![']']);
                        assert(first@ == items[0] && pos == i + str_json(items[0]).len());
                        lemma_at_first(s@, pos as int, seq![']']);
                        assert(!(pos < n && s@[pos as int] == ']'));
                    } else {
                        lemma_at_concat(
                            s@,
                            i as int,
                            str_json(items[0]),
                            ", "@ + strs_rest(items.skip(1)),
                        );
                        assert(strs_rest(items) =~= str_json(items[0]) + (", "@ + strs_rest(
                            items.skip(1),
                        )));
                        assert(first@ == items[0] && pos == i + str_json(items[0]).len());
                        lemma_at_concat(s@, pos as int, ", "@, strs_rest(items.skip(1)));
                        assert(text_at(s@, pos2 as int, strs_rest(items.skip(1))));
                        assert(plain_texts(items.skip(1))) by {
                            assert(forall|j: int|
                                0 <= j < items.skip(1).len() ==> #[trigger] items.skip(1)[j]
                                    == items[j + 1]);
                        }
                        assert(string_models(p2.0@) == items.skip(1));
                        assert(models =~= seq![items[0]] + items.skip(1));
                        assert(seq![items[0]] + items.skip(1) =~= items);
                    }
                }
            }
            Some((out, end))
        },
        None => {
            proof {
                assert forall|items: Seq<Seq<char>>|
                    items.len() >= 1 && plain_texts(items) && text_at(
                        s@,
                        i as int,
                        strs_rest(items),
                    ) implies false by {
                    if items.len() == 1 {
                        lemma_at_concat(s@, i as int, str_json(items[0]), seq![']']);
                        assert(first@ == items[0] && pos == i + str_json(items[0]).len());
                        lemma_at_first(s@, pos as int, seq![']']);
                        assert(!(pos < n && s@[pos as int] == ']'));
                    } else {
                        lemma_at_concat(
                            s@,
                            i as int,
                            str_json(items[0]),
                            ", "@ + strs_rest(items.skip(1)),
                        );
                        assert(strs_rest(items) =~= str_json(items[0]) + (", "@ + strs_rest(
                            items.skip(1),
                        )));
                        assert(first@ == items[0] && pos == i + str_json(items[0]).len());
                        lemma_at_concat(s@, pos as int, ", "@, strs_rest(items.skip(1)));
                        assert(text_at(s@, pos2 as int, strs_rest(items.skip(1))));
                        assert(plain_texts(items.skip(1))) by {
                            assert(forall|j: int|
                                0 <= j < items.skip(1).len() ==> #[trigger] items.skip(1)[j]
                                    == items[j + 1]);
                        }
                    }
                }
            }
            None
        },
    }
}

/// `','` and `']'` differ; revealing the separator literal settles it.
proof fn proof_comma_is_not_bracket()
    ensures
        ", "@[0] != ']',
        ", "@.len() == 2,
        ", "@[0] == ',',
{
    reveal_strlit(", ");
}

} // verus!

verus! {

/// The step literal after its `step_id` label, peeled one component at a
/// time.
pub open spec fn step_tail9(m: WorkflowStepModel) -> Seq<char> {
    strs_json(m.outputs) + seq!['}']
}

pub open spec fn step_tail8(m: WorkflowStepModel) -> Seq<char> {
    ", \"outputs\": "@ + step_tail9(m)
}

pub open spec fn step_tail7(m: WorkflowStepModel) -> Seq<char> {
    strs_json(m.inputs) + step_tail8(m)
}

pub open spec fn step_tail6(m: WorkflowStepModel) -> Seq<char> {
    ", \"inputs\": "@ + step_tail7(m)
}

pub open spec fn step_tail5(m: WorkflowStepModel) -> Seq<char> {
    str_json(m.action) + step_tail6(m)
}

pub open spec fn step_tail4(m: WorkflowStepModel) -> Seq<char> {
    ", \"action\": "@ + step_tail5(m)
}

pub open spec fn step_tail3(m: WorkflowStepModel) -> Seq<char> {
    str_json(m.agent_type) + step_tail4(m)
}

pub open spec fn step_tail2(m: WorkflowStepModel) -> Seq<char> {
    ", \"agent_type\": "@ + step_tail3(m)
}

pub open spec fn step_tail1(m: WorkflowStepModel) -> Seq<char> {
    str_json(m.step_id) + step_tail2(m)
}

/// A step literal is its label followed by the peeled tail.
pub proof fn lemma_step_json_parts(m: WorkflowStepModel)
    ensures
        step_json(m) == "{\"step_id\": "@ + step_tail1(m),
{
    assert(step_json(m) =~= "{\"step_id\": "@ + step_tail1(m));
}

/// Reads one plain step object at `i`: sound and complete for plain steps.
#[verifier::spinoff_prover]
#[verifier::rlimit(100)]
fn parse_step(s: &str, i: usize) -> (r: Option<(WorkflowStep, usize)>)
    ensures
        r matches Some(p) ==> {
            &&& step_plain(p.0@)
            &&& text_at(s@, i as int, step_json(p.0@))
            &&& p.1 == i + step_json(p.0@).len()
            &&& i < p.1 <= s@.len()
        },
        forall|m: WorkflowStepModel|
            step_plain(m) && text_at(s@, i as int, step_json(m)) ==> (r matches Some(p) && p.0@
                == m && p.1 == i + step_json(m).len()),
{
    let p0 = match expect_lit(s, i, "{\"step_id\": ") {
        Some(k) => k,
        None => {
            proof {
                assert forall|m: WorkflowStepModel| step_plain(m) && text_at(s@, i as int, #[trigger] step_json(m)) implies false by {
                    lemma_step_json_parts(m);
                    lemma_at_concat(s@, i as int, "{\"step_id\": "@, step_tail1(m));
                }
            }
            return None;
        },
    };
    proof {
        assert forall|m: WorkflowStepModel| step_plain(m) && text_at(s@, i as int, #[trigger] step_json(m)) implies text_at(s@, p0 as int, step_tail1(m))
            by {
            lemma_step_json_parts(m);
            lemma_at_concat(s@, i as int, "{\"step_id\": "@, step_tail1(m));
        }
    }
    let (step_id, p1) = match parse_string(s, p0) {
        Some(p) => p,
        None => {
            proof {
                assert forall|m: WorkflowStepModel| step_plain(m) && text_at(s@, i as int, #[trigger] step_json(m)) implies false by {
                    lemma_at_concat(s@, p0 as int, str_json(m.step_id), step_tail2(m));
                }
            }
            return None;
        },
    };
    proof {
        assert forall|m: WorkflowStepModel| step_plain(m) && text_at(s@, i as int, #[trigger] step_json(m)) implies step_id@ == m.step_id && text_at(
            s@,
            p1 as int,
            step_tail2(m),
        ) by {
            lemma_at_concat(s@, p0 as int, str_json(m.step_id), step_tail2(m));
        }
    }
    let p2 = match expect_lit(s, p1, ", \"agent_type\": ") {
        Some(k) => k,
        None => {
            proof {
                assert forall|m: WorkflowStepModel| step_plain(m) && text_at(s@, i as int, #[trigger] step_json(m)) implies false by {
                    lemma_at_concat(s@, p1 as int, ", \"agent_type\": "@, step_tail3(m));
                }
            }
            return None;
        },
    };
    proof {
        assert forall|m: WorkflowStepModel| step_plain(m) && text_at(s@, i as int, #[trigger] step_json(m)) implies text_at(s@, p2 as int, step_tail3(m))
            by {
            lemma_at_concat(s@, p1 as int, ", \"agent_type\": "@, step_tail3(m));
        }
    }
    let (agent_type, p3) = match parse_string(s, p2) {
        Some(p) => p,
        None => {
            proof {
                assert forall|m: WorkflowStepModel| step_plain(m) && text_at(s@, i as int, #[trigger] step_json(m)) implies false by {
                    lemma_at_concat(s@, p2 as int, str_json(m.agent_type), step_tail4(m));
                }
            }
            return None;
        },
    };
    proof {
        assert forall|m: WorkflowStepModel| step_plain(m) && text_at(s@, i as int, #[trigger] step_json(m)) implies agent_type@ == m.agent_type
            && text_at(s@, p3 as int, step_tail4(m)) by {
            lemma_at_concat(s@, p2 as int, str_json(m.agent_type), step_tail4(m));
        }
    }
    let p4 = match expect_lit(s, p3, ", \"action\": ") {
        Some(k) => k,
        None => {
            proof {
                assert forall|m: WorkflowStepModel| step_plain(m) && text_at(s@, i as int, #[trigger] step_json(m)) implies false by {
                    lemma_at_concat(s@, p3 as int, ", \"action\": "@, step_tail5(m));
                }
            }
            return None;
        },
    };
    proof {
        assert forall|m: WorkflowStepModel| step_plain(m) && text_at(s@, i as int, #[trigger] step_json(m)) implies text_at(s@, p4 as int, step_tail5(m))
            by {
            lemma_at_concat(s@, p3 as int, ", \"action\": "@, step_tail5(m));
        }
    }
    let (action, p5) = match parse_string(s, p4) {
        Some(p) => p,
        None => {
            proof {
                assert forall|m: WorkflowStepModel| step_plain(m) && text_at(s@, i as int, #[trigger] step_json(m)) implies false by {
                    lemma_at_concat(s@, p4 as int, str_json(m.action), step_tail6(m));
                }
            }
            return None;
        },
    };
    proof {
        assert forall|m: WorkflowStepModel| step_plain(m) && text_at(s@, i as int, #[trigger] step_json(m)) implies action@ == m.action && text_at(
            s@,
            p5 as int,
            step_tail6(m),
        ) by {
            lemma_at_concat(s@, p4 as int, str_json(m.action), step_tail6(m));
        }
    }
    let p6 = match expect_lit(s, p5, ", \"inputs\": ") {
        Some(k) => k,
        None => {
            proof {
                assert forall|m: WorkflowStepModel| step_plain(m) && text_at(s@, i as int, #[trigger] step_json(m)) implies false by {
                    lemma_at_concat(s@, p5 as int, ", \"inputs\": "@, step_tail7(m));
                }
            }
            return None;
        },
    };
    proof {
        assert forall|m: WorkflowStepModel| step_plain(m) && text_at(s@, i as int, #[trigger] step_json(m)) implies text_at(s@, p6 as int, step_tail7(m))
            by {
            lemma_at_concat(s@, p5 as int, ", \"inputs\": "@, step_tail7(m));
        }
    }
    let (inputs, p7) = match parse_str_array(s, p6) {
        Some(p) => p,
        None => {
            proof {
                assert forall|m: WorkflowStepModel| step_plain(m) && text_at(s@, i as int, #[trigger] step_json(m)) implies false by {
                    lemma_at_concat(s@, p6 as int, strs_json(m.inputs), step_tail8(m));
                }
            }
            return None;
        },
    };
    proof {
        assert forall|m: WorkflowStepModel| step_plain(m) && text_at(s@, i as int, #[trigger] step_json(m)) implies string_models(inputs@) == m.inputs
            && text_at(s@, p7 as int, step_tail8(m)) by {
            lemma_at_concat(s@, p6 as int, strs_json(m.inputs), step_tail8(m));
        }
    }
    let p8 = match expect_lit(s, p7, ", \"outputs\": ") {
        Some(k) => k,
        None => {
            proof {
                assert forall|m: WorkflowStepModel| step_plain(m) && text_at(s@, i as int, #[trigger] step_json(m)) implies false by {
                    lemma_at_concat(s@, p7 as int, ", \"outputs\": "@, step_tail9(m));
                }
            }
            return None;
        },
    };
    proof {
        assert forall|m: WorkflowStepModel| step_plain(m) && text_at(s@, i as int, #[trigger] step_json(m)) implies text_at(s@, p8 as int, step_tail9(m))
            by {
            lemma_at_concat(s@, p7 as int, ", \"outputs\": "@, step_tail9(m));
        }
    }
    let (outputs, p9) = match parse_str_array(s, p8) {
        Some(p) => p,
        None => {
            proof {
                assert forall|m: WorkflowStepModel| step_plain(m) && text_at(s@, i as int, #[trigger] step_json(m)) implies false by {
                    lemma_at_concat(s@, p8 as int, strs_json(m.outputs), seq!['}']);
                }
            }
            return None;
        },
    };
    proof {
        assert forall|m: WorkflowStepModel| step_plain(m) && text_at(s@, i as int, #[trigger] step_json(m)) implies string_models(outputs@) == m.outputs
            && text_at(s@, p9 as int, seq!['}']) by {
            lemma_at_concat(s@, p8 as int, strs_json(m.outputs), seq!['}']);
        }
    }
    let p10 = match expect_lit(s, p9, "}") {
        Some(k) => k,
        None => {
            proof {
                reveal_strlit("}");
                assert forall|m: WorkflowStepModel| step_plain(m) && text_at(s@, i as int, #[trigger] step_json(m)) implies false by {
                    assert(text_at(s@, p9 as int, "}"@)) by {
                        assert(s@.subrange(p9 as int, p9 + 1) =~= "}"@);
                    }
                }
            }
            return None;
        },
    };
    let step = WorkflowStep { step_id, agent_type, action, inputs, outputs };
    proof {
        reveal_strlit("}");
        let sm = step@;
        assert(s@.subrange(p9 as int, p9 + 1) =~= seq!['}']);
        assert(text_at(s@, p9 as int, seq!['}']));
        lemma_at_concat(s@, p8 as int, strs_json(sm.outputs), seq!['}']);
        lemma_at_concat(s@, p7 as int, ", \"outputs\": "@, step_tail9(sm));
        lemma_at_concat(s@, p6 as int, strs_json(sm.inputs), step_tail8(sm));
        lemma_at_concat(s@, p5 as int, ", \"inputs\": "@, step_tail7(sm));
        lemma_at_concat(s@, p4 as int, str_json(sm.action), step_tail6(sm));
        lemma_at_concat(s@, p3 as int, ", \"action\": "@, step_tail5(sm));
        lemma_at_concat(s@, p2 as int, str_json(sm.agent_type), step_tail4(sm));
        lemma_at_concat(s@, p1 as int, ", \"agent_type\": "@, step_tail3(sm));
        lemma_at_concat(s@, p0 as int, str_json(sm.step_id), step_tail2(sm));
        lemma_step_json_parts(sm);
        lemma_at_concat(s@, i as int, "{\"step_id\": "@, step_tail1(sm));
        assert(text_at(s@, i as int, step_json(sm)));
        assert forall|m: WorkflowStepModel| step_plain(m) && text_at(s@, i as int, #[trigger] step_json(m)) implies step@ == m && p10 == i + step_json(
            m,
        ).len() by {
            assert(step@ =~= m);
        }
    }
    Some((step, p10))
}

} // verus!

verus! {

/// Reads one plain string array at `i`: sound and complete for plain arrays.
fn parse_str_array(s: &str, i: usize) -> (r: Option<(Vec<String>, usize)>)
    ensures
        r matches Some(p) ==> {
            &&& plain_texts(string_models(p.0@))
            &&& text_at(s@, i as int, strs_json(string_models(p.0@)))
            &&& p.1 == i + strs_json(string_models(p.0@)).len()
            &&& i < p.1 <= s@.len()
        },
        forall|items: Seq<Seq<char>>|
            plain_texts(items) && text_at(s@, i as int, strs_json(items)) ==> (r matches Some(p)
                && string_models(p.0@) == items && p.1 == i + strs_json(items).len()),
{
    let n = s.unicode_len();
    if i >= n || s.get_char(i) != '[' {
        proof {
            assert forall|items: Seq<Seq<char>>|
                plain_texts(items) && text_at(s@, i as int, strs_json(items)) implies false by {
                lemma_strs_rest(items);
                assert(s@[i as int] == strs_json(items)[0]);
            }
        }
        return None;
    }
    if i + 1 < n && s.get_char(i + 1) == ']' {
        let out: Vec<String> = Vec::new();
        proof {
            assert(string_models(out@) =~= Seq::<Seq<char>>::empty());
            assert(strs_json(string_models(out@)) =~= seq!['['] + seq![']']);
            assert(s@.subrange(i as int, i + 2) =~= seq!['['] + seq![']']);
            assert(text_at(s@, i as int, strs_json(string_models(out@))));
            assert forall|items: Seq<Seq<char>>|
                plain_texts(items) && text_at(s@, i as int, strs_json(items)) implies
                string_models(out@) == items && i + 2 == i + strs_json(items).len() by {
                lemma_strs_rest(items);
                lemma_at_concat(s@, i as int, seq!['['], strs_rest(items));
                if items.len() >= 1 {
                    if items.len() == 1 {
                        lemma_at_concat(s@, i + 1, str_json(items[0]), seq![']']);
                    } else {
                        assert(strs_rest(items) =~= str_json(items[0]) + (", "@ + strs_rest(
                            items.skip(1),
                        )));
                        lemma_at_concat(
                            s@,
                            i + 1,
                            str_json(items[0]),
                            ", "@ + strs_rest(items.skip(1)),
                        );
                    }
                    lemma_plain_str_json(items[0]);
                    assert(s@[i + 1] == str_json(items[0])[0]);
                }
                assert(items =~= string_models(out@));
            }
        }
        return Some((out, i + 2));
    }
    match parse_str_items(s, i + 1) {
        Some(p) => {
            proof {
                lemma_strs_rest(string_models(p.0@));
                assert(s@.subrange(i as int, i + 1) =~= seq!['[']);
                assert(text_at(s@, i as int, seq!['[']));
                lemma_at_concat(s@, i as int, seq!['['], strs_rest(string_models(p.0@)));
                assert forall|items: Seq<Seq<char>>|
                    plain_texts(items) && text_at(s@, i as int, strs_json(items)) implies
                    string_models(p.0@) == items && p.1 == i + strs_json(items).len() by {
                    lemma_strs_rest(items);
                    lemma_at_concat(s@, i as int, seq!['['], strs_rest(items));
                    if items.len() == 0 {
                        assert(s@[i + 1] == strs_rest(items)[0]);
                        assert(i + 1 < n);
                    }
                }
            }
            Some((p.0, p.1))
        },
        None => {
            proof {
                assert forall|items: Seq<Seq<char>>|
                    plain_texts(items) && text_at(s@, i as int, strs_json(items)) implies false by {
                    lemma_strs_rest(items);
                    lemma_at_concat(s@, i as int, seq!['['], strs_rest(items));
                    if items.len() == 0 {
                        assert(s@[i + 1] == strs_rest(items)[0]);
                        assert(i + 1 < n);
                    }
                }
            }
            None
        },
    }
}

} // verus!

verus! {

/// Reads the steps and closing bracket of a nonempty plain plan: sound and
/// complete for plain nonempty tails.
#[verifier::spinoff_prover]
#[verifier::rlimit(100)]
fn parse_step_items(s: &str, i: usize) -> (r: Option<(Vec<WorkflowStep>, usize)>)
    ensures
        r matches Some(p) ==> {
            &&& p.0@.len() >= 1
            &&& plan_plain(step_models(p.0@))
            &&& text_at(s@, i as int, steps_rest(step_models(p.0@)))
            &&& p.1 == i + steps_rest(step_models(p.0@)).len()
            &&& i < p.1 <= s@.len()
        },
        forall|sm: Seq<WorkflowStepModel>|
            sm.len() >= 1 && plan_plain(sm) && text_at(s@, i as int, steps_rest(sm)) ==> (
            r matches Some(p) && step_models(p.0@) == sm && p.1 == i + steps_rest(sm).len()),
    decreases s@.len() - i,
{
    let n = s.unicode_len();
    let (first, pos) = match parse_step(s, i) {
        Some(p) => p,
        None => {
            proof {
                assert forall|sm: Seq<WorkflowStepModel>|
                    sm.len() >= 1 && plan_plain(sm) && text_at(
                        s@,
                        i as int,
                        steps_rest(sm),
                    ) implies false by {
                    if sm.len() == 1 {
                        lemma_at_concat(s@, i as int, step_json(sm[0]), seq![']']);
                    } else {
                        assert(steps_rest(sm) =~= step_json(sm[0]) + (", "@ + steps_rest(
                            sm.skip(1),
                        )));
                        lemma_at_concat(s@, i as int, step_json(sm[0]), ", "@ + steps_rest(
                            sm.skip(1),
                        ));
                    }
                    assert(text_at(s@, i as int, step_json(sm[0])));
                }
            }
            return None;
        },
    };
    if pos < n && s.get_char(pos) == ']' {
        let mut single: Vec<WorkflowStep> = Vec::new();
        single.push(first);
        let ghost models = step_models(single@);
        proof {
            assert(models =~= seq![single@[0]@]);
            assert(plan_plain(models)) by {
                assert(forall|j: int| 0 <= j < models.len() ==> #[trigger] models[j] == first@);
            }
            assert(s@.subrange(pos as int, pos + 1) =~= seq![']']);
            assert(text_at(s@, pos as int, seq![']']));
            lemma_at_concat(s@, i as int, step_json(first@), seq![']']);
            assert(steps_rest(models) =~= step_json(first@) + seq![']']);
            assert(text_at(s@, i as int, steps_rest(models)));
            assert forall|sm: Seq<WorkflowStepModel>|
                sm.len() >= 1 && plan_plain(sm) && text_at(
                    s@,
                    i as int,
                    steps_rest(sm),
                ) implies models == sm && pos + 1 == i + steps_rest(sm).len() by {
                if sm.len() >= 2 {
                    assert(steps_rest(sm) =~= step_json(sm[0]) + (", "@ + steps_rest(sm.skip(1))));
                    lemma_at_concat(s@, i as int, step_json(sm[0]), ", "@ + steps_rest(
                        sm.skip(1),
                    ));
                    assert(first@ == sm[0] && pos == i + step_json(sm[0]).len());
                    proof_comma_is_not_bracket();
                    lemma_at_concat(s@, pos as int, ", "@, steps_rest(sm.skip(1)));
                    lemma_at_first(s@, pos as int, ", "@);
                } else {
                    lemma_at_concat(s@, i as int, step_json(sm[0]), seq![']']);
                    assert(first@ == sm[0]);
                    assert(models =~= sm);
                }
            }
        }
        return Some((single, pos + 1));
    }
    let pos2 = match expect_lit(s, pos, ", ") {
        Some(k) => k,
        None => {
            proof {
                assert forall|sm: Seq<WorkflowStepModel>|
                    sm.len() >= 1 && plan_plain(sm) && text_at(
                        s@,
                        i as int,
                        steps_rest(sm),
                    ) implies false by {
                    if sm.len() == 1 {
                        lemma_at_concat(s@, i as int, step_json(sm[0]), seq![']']);
                        assert(first@ == sm[0] && pos == i + step_json(sm[0]).len());
                        lemma_at_first(s@, pos as int, seq![']']);
                        assert(pos < n);
                    } else {
                        assert(steps_rest(sm) =~= step_json(sm[0]) + (", "@ + steps_rest(
                            sm.skip(1),
                        )));
                        lemma_at_concat(s@, i as int, step_json(sm[0]), ", "@ + steps_rest(
                            sm.skip(1),
                        ));
                        assert(first@ == sm[0] && pos == i + step_json(sm[0]).len());
                        lemma_at_concat(s@, pos as int, ", "@, steps_rest(sm.skip(1)));
                        assert(text_at(s@, pos as int, ", "@));
                    }
                }
            }
            return None;
        },
    };
    match parse_step_items(s, pos2) {
        Some(p2) => {
            let (rest, end) = p2;
            let mut out = rest;
            out.insert(0, first);
            let ghost models = step_models(out@);
            proof {
                assert(models.len() >= 2);
                assert(models[0] == first@);
                assert(plan_plain(models)) by {
                    assert(forall|j: int|
                        1 <= j < models.len() ==> #[trigger] models[j] == step_models(p2.0@)[j
                            - 1]);
                }
                assert(out@.skip(1) =~= p2.0@);
                assert(models.skip(1) =~= step_models(p2.0@));
                assert(steps_rest(models) == step_json(models[0]) + ", "@ + steps_rest(
                    models.skip(1),
                ));
                lemma_at_concat(s@, pos as int, ", "@, steps_rest(step_models(p2.0@)));
                lemma_at_concat(s@, i as int, step_json(first@), ", "@ + steps_rest(
                    step_models(p2.0@),
                ));
                assert(steps_rest(models) =~= step_json(first@) + (", "@ + steps_rest(
                    step_models(p2.0@),
                )));
                assert(text_at(s@, i as int, steps_rest(models)));
                assert forall|sm: Seq<WorkflowStepModel>|
                    sm.len() >= 1 && plan_plain(sm) && text_at(
                        s@,
                        i as int,
                        steps_rest(sm),
                    ) implies models == sm && end == i + steps_rest(sm).len() by {
                    if sm.len() == 1 {
                        lemma_at_concat(s@, i as int, step_json(sm[0]), seq![']']);
                        assert(first@ == sm[0] && pos == i + step_json(sm[0]).len());
                        lemma_at_first(s@, pos as int, seq![']']);
                        assert(!(pos < n && s@[pos as int] == ']'));
                    } else {
                        assert(steps_rest(sm) =~= step_json(sm[0]) + (", "@ + steps_rest(
                            sm.skip(1),
                        )));
                        lemma_at_concat(s@, i as int, step_json(sm[0]), ", "@ + steps_rest(
                            sm.skip(1),
                        ));
                        assert(first@ == sm[0] && pos == i + step_json(sm[0]).len());
                        lemma_at_concat(s@, pos as int, ", "@, steps_rest(sm.skip(1)));
                        assert(text_at(s@, pos2 as int, steps_rest(sm.skip(1))));
                        assert(plan_plain(sm.skip(1))) by {
                            assert(forall|j: int|
                                0 <= j < sm.skip(1).len() ==> #[trigger] sm.skip(1)[j] == sm[j
                                    + 1]);
                        }
                        assert(step_models(p2.0@) == sm.skip(1));
                        assert(models =~= seq![sm[0]] + sm.skip(1));
                        assert(seq![sm[0]] + sm.skip(1) =~= sm);
                    }
                }
            }
            Some((out, end))
        },
        None => {
            proof {
                assert forall|sm: Seq<WorkflowStepModel>|
                    sm.len() >= 1 && plan_plain(sm) && text_at(
                        s@,
                        i as int,
                        steps_rest(sm),
                    ) implies false by {
                    if sm.len() == 1 {
                        lemma_at_concat(s@, i as int, step_json(sm[0]), seq![']']);
                        assert(first@ == sm[0] && pos == i + step_json(sm[0]).len());
                        lemma_at_first(s@, pos as int, seq![']']);
                        assert(!(pos < n && s@[pos as int] == ']'));
                    } else {
                        assert(steps_rest(sm) =~= step_json(sm[0]) + (", "@ + steps_rest(
                            sm.skip(1),
                        )));
                        lemma_at_concat(s@, i as int, step_json(sm[0]), ", "@ + steps_rest(
                            sm.skip(1),
                        ));
                        assert(first@ == sm[0] && pos == i + step_json(sm[0]).len());
                        lemma_at_concat(s@, pos as int, ", "@, steps_rest(sm.skip(1)));
                        assert(text_at(s@, pos2 as int, steps_rest(sm.skip(1))));
                        assert(plan_plain(sm.skip(1))) by {
                            assert(forall|j: int|
                                0 <= j < sm.skip(1).len() ==> #[trigger] sm.skip(1)[j] == sm[j
                                    + 1]);
                        }
                    }
                }
            }
            None
        },
    }
}

/// Reads a whole workflow plan: the entire input must be one plan in the
/// canonical wire form, whose strings are escape-free. A `Some` answer is
/// exactly the plan the input encodes; a `None` answer proves the input
/// encodes no plain plan.
#[verifier::spinoff_prover]
#[verifier::rlimit(100)]
pub fn parse_workflow_steps(s: &str) -> (r: Option<Vec<WorkflowStep>>)
    ensures
        r matches Some(steps) ==> s@ == steps_json(step_models(steps@)) && plan_plain(
            step_models(steps@),
        ),
        r is None ==> !(exists|sm: Seq<WorkflowStepModel>| plan_plain(sm) && s@ == steps_json(sm)),
{
    let n = s.unicode_len();
    if n < 2 || s.get_char(0) != '[' {
        proof {
            assert forall|sm: Seq<WorkflowStepModel>|
                plan_plain(sm) && s@ == steps_json(sm) implies false by {
                lemma_steps_rest(sm);
                assert(s@[0] == '[');
                assert(s@.len() >= 2);
            }
        }
        return None;
    }
    if s.get_char(1) == ']' {
        if n == 2 {
            let out: Vec<WorkflowStep> = Vec::new();
            proof {
                assert(step_models(out@) =~= Seq::<WorkflowStepModel>::empty());
                assert(steps_json(step_models(out@)) =~= seq!['['] + seq![']']);
                assert(s@ =~= seq!['['] + seq![']']);
            }
            return Some(out);
        }
        proof {
            assert forall|sm: Seq<WorkflowStepModel>|
                plan_plain(sm) && s@ == steps_json(sm) implies false by {
                lemma_steps_rest(sm);
                if sm.len() == 0 {
                    assert(steps_json(sm) =~= seq!['['] + seq![']']);
                    assert(s@.len() == 2);
                } else {
                    lemma_at_concat(s@, 0, seq!['['], steps_rest(sm));
                    if sm.len() == 1 {
                        lemma_at_concat(s@, 1, step_json(sm[0]), seq![']']);
                    } else {
                        assert(steps_rest(sm) =~= step_json(sm[0]) + (", "@ + steps_rest(
                            sm.skip(1),
                        )));
                        lemma_at_concat(s@, 1, step_json(sm[0]), ", "@ + steps_rest(sm.skip(1)));
                    }
                    lemma_step_json_parts(sm[0]);
                    proof_step_opens_with_brace();
                    assert(s@[1] == step_json(sm[0])[0]);
                }
            }
        }
        return None;
    }
    match parse_step_items(s, 1) {
        Some(p) => {
            if p.1 == n {
                proof {
                    lemma_steps_rest(step_models(p.0@));
                    assert(s@.subrange(0, 1) =~= seq!['[']);
                    assert(text_at(s@, 0, seq!['[']));
                    lemma_at_concat(s@, 0, seq!['['], steps_rest(step_models(p.0@)));
                    assert(s@ =~= steps_json(step_models(p.0@)));
                }
                return Some(p.0);
            }
            proof {
                assert forall|sm: Seq<WorkflowStepModel>|
                    plan_plain(sm) && s@ == steps_json(sm) implies false by {
                    lemma_steps_rest(sm);
                    assert(text_at(s@, 0, steps_json(sm))) by {
                        assert(s@.subrange(0, steps_json(sm).len() as int) =~= s@);
                    }
                    lemma_at_concat(s@, 0, seq!['['], steps_rest(sm));
                    if sm.len() == 0 {
                        lemma_at_first(s@, 1, steps_rest(sm));
                    } else {
                        assert(text_at(s@, 1, steps_rest(sm)));
                        assert(p.1 == 1 + steps_rest(sm).len());
                        assert(s@.len() == 1 + steps_rest(sm).len());
                    }
                }
            }
            None
        },
        None => {
            proof {
                assert forall|sm: Seq<WorkflowStepModel>|
                    plan_plain(sm) && s@ == steps_json(sm) implies false by {
                    lemma_steps_rest(sm);
                    assert(text_at(s@, 0, steps_json(sm))) by {
                        assert(s@.subrange(0, steps_json(sm).len() as int) =~= s@);
                    }
                    lemma_at_concat(s@, 0, seq!['['], steps_rest(sm));
                    if sm.len() == 0 {
                        lemma_at_first(s@, 1, steps_rest(sm));
                    } else {
                        assert(text_at(s@, 1, steps_rest(sm)));
                    }
                }
            }
            None
        },
    }
}

/// A step literal opens with a brace, never a bracket.
proof fn proof_step_opens_with_brace()
    ensures
        "{\"step_id\": "@.len() == 12,
        "{\"step_id\": "@[0] == '{',
{
    reveal_strlit("{\"step_id\": ");
}

} // verus!
