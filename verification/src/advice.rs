//! The `@advice` and `@redact` annotations of policies, and the obligations and redactions that
//! they stand for.

use vstd::prelude::*;
use vstd::string::*;

use crate::bundle::MatchedPolicy;
use crate::cedar::{pairs, PolicyFacts};
use crate::config::blank;
use crate::json::{
    from_value, json_read, json_text, parse_text, reads_back, Json, JsonValue,
};
use crate::protocol::{
    obligation_values, redaction_values, Obligation, ObligationValue, Redaction, RedactionValue,
};
use crate::text::{
    all_space, chars_of, find_char, first_place, is_blank, is_space, law_trimming, lemma_first_place,
    lemma_place, lemma_trim_bounds, lemma_trimmed_around, lemma_trimmed_is_same,
    lemma_trimmed_padded, same_text, trim, trimmed,
};

verus! {

/// The kind and the rest of an advice: what stands before and behind the first colon, without the
/// white space around. Without a colon all of it is the kind. There is no advice without a kind.
pub open spec fn advice_parts(value: Seq<char>) -> Option<(Seq<char>, Seq<char>)> {
    let text = trimmed(value);
    let at = first_place(text, ':');
    let kind = trimmed(text.take(at));
    let rest = if at < text.len() {
        trimmed(text.skip(at + 1))
    } else {
        Seq::empty()
    };
    if kind.len() == 0 {
        None
    } else {
        Some((kind, rest))
    }
}

/// The arguments of an advice: null where there is no rest, or else the JSON value that the rest
/// is, or else the rest itself.
pub open spec fn advice_args_of(rest: Seq<char>, read: Option<JsonValue>) -> JsonValue {
    if rest.len() == 0 {
        JsonValue::Null
    } else {
        match read {
            Some(value) => value,
            None => JsonValue::Text(rest),
        }
    }
}

/// The obligation that an advice stands for.
pub open spec fn advice(value: Seq<char>) -> Option<ObligationValue> {
    match advice_parts(value) {
        None => None,
        Some((kind, rest)) => Some(
            ObligationValue { kind, args: advice_args_of(rest, json_read(rest)) },
        ),
    }
}

/// The kind and the rest of an advice.
pub fn split_advice(value: &str) -> (r: Option<(&str, &str)>)
    ensures
        match r {
            Some((kind, rest)) => advice_parts(value@) == Some((kind@, rest@)),
            None => advice_parts(value@) is None,
        },
{
    let text = trim(value);
    let chars = chars_of(text);
    let at: usize = find_char(&chars, 0, ':');
    assert(chars@.skip(0) == text@);
    let kind = trim(text.substring_char(0, at));
    assert(text@.subrange(0, at as int) == text@.take(at as int));
    if kind.is_empty() {
        return None;
    }
    if at < chars.len() {
        assert(text@.subrange(at + 1, text@.len() as int) == text@.skip(at + 1));
        Some((kind, trim(text.substring_char(at + 1, chars.len()))))
    } else {
        let rest = text.substring_char(at, at);
        assert(rest@ == Seq::<char>::empty());
        Some((kind, rest))
    }
}

/// The arguments of an advice, from its rest and what the rest reads as.
pub fn advice_args(rest: &str, read: Option<Json>) -> (r: Json)
    ensures
        r@ == advice_args_of(
            rest@,
            match read {
                Some(json) => Some(json@),
                None => None,
            },
        ),
{
    if rest.is_empty() {
        return Json::Null;
    }
    match read {
        Some(json) => json,
        None => Json::text(rest),
    }
}

/// The JSON value that a text is, if it is one. The text that is written of a value reads as that
/// value.
pub fn read_json(text: &str) -> (r: Option<Json>)
    ensures
        match r {
            Some(json) => json_read(text@) == Some(json@) && json@.distinct(),
            None => json_read(text@) is None,
        },
        forall|v: JsonValue|
            reads_back(v) && text@ == trimmed(#[trigger] json_text(v)) ==> text@.len() > 0
                && json_read(text@) == Some(v),
{
    match parse_text(text) {
        Some(value) => Some(from_value(&value)),
        None => None,
    }
}

/// Tells whether a text neither begins nor ends with white space.
pub open spec fn is_trim(s: Seq<char>) -> bool {
    s.len() > 0 ==> !is_space(s[0]) && !is_space(s.last())
}

/// Tells whether a text can be the kind of an advice.
pub open spec fn is_kind(kind: Seq<char>) -> bool {
    kind.len() > 0 && is_trim(kind) && !kind.contains(':')
}

/// An advice of a kind and a rest, with something before and behind each of them.
pub open spec fn written_advice(
    a: Seq<char>,
    kind: Seq<char>,
    b: Seq<char>,
    c: Seq<char>,
    rest: Seq<char>,
    d: Seq<char>,
) -> Seq<char> {
    (a + kind + b) + seq![':'] + (c + rest + d)
}

/// The obligation that an advice stands for. A kind and the JSON text of a value, with a colon
/// between and white space wherever it may stand, stand for the obligation of that kind with that
/// value.
pub fn parse_advice(value: &str) -> (r: Option<Obligation>)
    ensures
        match r {
            Some(obligation) => advice(value@) == Some(obligation@),
            None => advice(value@) is None,
        },
        forall|
            a: Seq<char>,
            kind: Seq<char>,
            b: Seq<char>,
            c: Seq<char>,
            v: JsonValue,
            d: Seq<char>,
        |
            value@ == #[trigger] written_advice(a, kind, b, c, json_text(v), d) && is_kind(kind)
                && reads_back(v) && all_space(a) && all_space(b) && all_space(c) && all_space(d)
                ==> (r matches Some(obligation) && obligation@ == (ObligationValue {
                kind,
                args: v,
            })),
{
    match split_advice(value) {
        Some((kind, rest)) => {
            let read = read_json(rest);
            proof {
                assert forall|
                    a: Seq<char>,
                    k: Seq<char>,
                    b: Seq<char>,
                    c: Seq<char>,
                    v: JsonValue,
                    d: Seq<char>,
                |
                    value@ == #[trigger] written_advice(a, k, b, c, json_text(v), d) && is_kind(k)
                        && reads_back(v) && all_space(a) && all_space(b) && all_space(c)
                        && all_space(d) implies advice(value@) == Some(
                    ObligationValue { kind: k, args: v },
                ) by {
                    lemma_padded_parts(a, k, b, c, json_text(v), d);
                }
            }
            Some(Obligation { kind: kind.to_owned(), args: advice_args(rest, read) })
        },
        None => {
            proof {
                assert forall|
                    a: Seq<char>,
                    k: Seq<char>,
                    b: Seq<char>,
                    c: Seq<char>,
                    v: JsonValue,
                    d: Seq<char>,
                |
                    value@ == #[trigger] written_advice(a, k, b, c, json_text(v), d) && is_kind(k)
                        && all_space(a) && all_space(b) && all_space(c) && all_space(
                        d,
                    ) implies false by {
                    lemma_padded_parts(a, k, b, c, json_text(v), d);
                }
            }
            None
        },
    }
}

/// The parts of an advice with a colon: what stands before the colon and what stands behind it.
proof fn lemma_parts(a: Seq<char>, b: Seq<char>)
    requires
        trimmed(a).len() > 0,
        !a.contains(':'),
    ensures
        advice_parts(a + seq![':'] + b) == Some((trimmed(a), trimmed(b))),
{
    lemma_trimmed_around(a, ':', b);
    let text = trimmed(a + seq![':'] + b);
    let (x, y) = choose|x: Seq<char>, y: Seq<char>|
        text == #[trigger] (x + seq![':'] + y) && trimmed(x) == trimmed(a) && trimmed(y) == trimmed(
            b,
        ) && (forall|i: int| 0 <= i < x.len() ==> a.contains(#[trigger] x[i]));
    let at = x.len() as int;
    assert forall|i: int| 0 <= i < at implies #[trigger] text[i] != ':' by {
        assert(text[i] == x[i]);
    }
    assert(text[at] == ':');
    lemma_first_place(text, ':', at);
    assert(text.take(at) == x);
    assert(text.skip(at + 1) == y);
}

/// The parts of an advice with white space around its kind and its rest.
proof fn lemma_padded_parts(
    a: Seq<char>,
    kind: Seq<char>,
    b: Seq<char>,
    c: Seq<char>,
    rest: Seq<char>,
    d: Seq<char>,
)
    requires
        is_kind(kind),
        all_space(a),
        all_space(b),
        all_space(c),
        all_space(d),
    ensures
        advice_parts(written_advice(a, kind, b, c, rest, d)) == Some((kind, trimmed(rest))),
{
    let front = a + kind + b;
    lemma_trimmed_padded(a, kind, b);
    lemma_trimmed_is_same(kind);
    lemma_trimmed_padded(c, rest, d);
    assert(!front.contains(':')) by {
        if front.contains(':') {
            let i = front.index_of(':');
            assert(front[i] == ':');
            if i < a.len() {
                assert(is_space(a[i]));
            } else if i < a.len() + kind.len() {
                assert(kind[i - a.len()] == ':');
            } else {
                assert(is_space(b[i - a.len() - kind.len()]));
            }
        }
    }
    lemma_parts(front, c + rest + d);
}

/// An advice of a kind alone has no arguments, whatever white space stands around it.
pub proof fn law_advice_of_a_kind_alone(a: Seq<char>, kind: Seq<char>, b: Seq<char>)
    requires
        is_kind(kind),
        all_space(a),
        all_space(b),
    ensures
        advice(a + kind + b) == Some(ObligationValue { kind, args: JsonValue::Null }),
{
    lemma_trimmed_padded(a, kind, b);
    lemma_trimmed_is_same(kind);
    lemma_first_place(kind, ':', kind.len() as int);
    assert(kind.take(kind.len() as int) == kind);
}

/// An advice of a kind, a colon and a rest, with white space wherever it may stand, has that kind,
/// and as arguments the JSON value that the rest is. A rest that is no JSON is kept as a text. The
/// first colon counts: the rest may hold more of them.
pub proof fn law_advice_with_arguments(
    a: Seq<char>,
    kind: Seq<char>,
    b: Seq<char>,
    c: Seq<char>,
    rest: Seq<char>,
    d: Seq<char>,
)
    requires
        is_kind(kind),
        rest.len() > 0,
        is_trim(rest),
        all_space(a),
        all_space(b),
        all_space(c),
        all_space(d),
    ensures
        advice(written_advice(a, kind, b, c, rest, d)) == Some(
            ObligationValue {
                kind,
                args: match json_read(rest) {
                    Some(value) => value,
                    None => JsonValue::Text(rest),
                },
            },
        ),
{
    lemma_padded_parts(a, kind, b, c, rest, d);
    lemma_trimmed_is_same(rest);
}

/// There is no advice exactly where the part before the first colon, or all of it where there is no
/// colon, is blank.
pub proof fn law_no_advice_without_a_kind(value: Seq<char>)
    ensures
        advice(value) is None <==> blank(value.take(first_place(value, ':'))),
{
    let at = first_place(value, ':');
    lemma_place(value, ':');
    let front = value.take(at);
    let (from, to) = lemma_trim_bounds(value);
    let text = trimmed(value);
    if at < value.len() {
        let back = value.skip(at + 1);
        assert(value == front + seq![':'] + back);
        if blank(front) {
            let (p, q) = lemma_trim_bounds(front);
            assert(q == 0);
            assert(from == at) by {
                if from < at {
                    assert(is_space(front[from]));
                    assert(front[from] == value[from]);
                }
                if from > at {
                    assert(is_space(value[at]));
                }
            }
            assert(text[0] == ':');
            lemma_first_place(text, ':', 0);
            assert(text.take(0) == Seq::<char>::empty());
        } else {
            assert(!front.contains(':'));
            lemma_parts(front, back);
        }
    } else {
        assert(front == value);
        assert forall|i: int| 0 <= i < text.len() implies #[trigger] text[i] != ':' by {
            assert(text[i] == value[from + i]);
        }
        lemma_first_place(text, ':', text.len() as int);
        assert(text.take(text.len() as int) == text);
        if text.len() > 0 {
            assert(text[0] == value[from] && text.last() == value[to - 1]);
        }
        lemma_trimmed_is_same(text);
    }
}

/// The obligations that the annotations of a policy stand for, in order.
pub open spec fn advised(annotations: Seq<(Seq<char>, Seq<char>)>) -> Seq<ObligationValue>
    decreases annotations.len(),
{
    if annotations.len() == 0 {
        Seq::empty()
    } else {
        let before = advised(annotations.drop_last());
        let (key, value) = annotations.last();
        if key == "advice"@ && advice(value) is Some {
            before.push(advice(value)->0)
        } else {
            before
        }
    }
}

/// The redaction that a pointer stands for: the pointer is carried as it is written. A blank one
/// stands for none.
pub open spec fn redaction(value: Seq<char>) -> Option<RedactionValue> {
    if blank(value) {
        None
    } else {
        Some(
            RedactionValue {
                json_pointer: value,
                replacement: JsonValue::Text("***"@),
            },
        )
    }
}

/// The redactions that the annotations of a policy stand for, in order.
pub open spec fn redacted(annotations: Seq<(Seq<char>, Seq<char>)>) -> Seq<RedactionValue>
    decreases annotations.len(),
{
    if annotations.len() == 0 {
        Seq::empty()
    } else {
        let before = redacted(annotations.drop_last());
        let (key, value) = annotations.last();
        if key == "redact"@ && redaction(value) is Some {
            before.push(redaction(value)->0)
        } else {
            before
        }
    }
}

/// The obligations of policies, one policy after the other.
pub open spec fn all_advised(policies: Seq<PolicyFacts>) -> Seq<ObligationValue>
    decreases policies.len(),
{
    if policies.len() == 0 {
        Seq::empty()
    } else {
        all_advised(policies.drop_last()) + advised(policies.last().annotations)
    }
}

/// The redactions of policies, one policy after the other.
pub open spec fn all_redacted(policies: Seq<PolicyFacts>) -> Seq<RedactionValue>
    decreases policies.len(),
{
    if policies.len() == 0 {
        Seq::empty()
    } else {
        all_redacted(policies.drop_last()) + redacted(policies.last().annotations)
    }
}

/// The redaction that a pointer stands for.
pub fn parse_redaction(value: &str) -> (r: Option<Redaction>)
    ensures
        match r {
            Some(found) => redaction(value@) == Some(found@),
            None => redaction(value@) is None,
        },
{
    if is_blank(value) {
        return None;
    }
    Some(Redaction { json_pointer: value.to_owned(), replacement: Json::text("***") })
}

/// The obligations that the annotations of a policy stand for, and, if they are asked for, the
/// redactions.
pub fn annotation_advice(annotations: &Vec<(String, String)>, include_redactions: bool) -> (r: (
    Vec<Obligation>,
    Vec<Redaction>,
))
    ensures
        obligation_values(r.0@) == advised(pairs(annotations@)),
        redaction_values(r.1@) == (if include_redactions {
            redacted(pairs(annotations@))
        } else {
            Seq::empty()
        }),
{
    let mut obligations: Vec<Obligation> = Vec::new();
    let mut redactions: Vec<Redaction> = Vec::new();
    let mut i: usize = 0;
    let ghost facts = pairs(annotations@);
    assert(facts.take(0) == Seq::<(Seq<char>, Seq<char>)>::empty());
    assert(obligation_values(obligations@) == Seq::<ObligationValue>::empty());
    assert(redaction_values(redactions@) == Seq::<RedactionValue>::empty());
    while i < annotations.len()
        invariant
            i <= annotations@.len(),
            facts == pairs(annotations@),
            obligation_values(obligations@) == advised(facts.take(i as int)),
            redaction_values(redactions@) == (if include_redactions {
                redacted(facts.take(i as int))
            } else {
                Seq::empty()
            }),
        decreases annotations@.len() - i,
    {
        let key: &str = annotations[i].0.as_str();
        let value: &str = annotations[i].1.as_str();
        let ghost obligations_before = obligations@;
        let ghost redactions_before = redactions@;
        proof {
            let t = facts.take(i + 1);
            assert(t.drop_last() == facts.take(i as int));
            assert(t.last() == (key@, value@));
            reveal_strlit("advice");
            reveal_strlit("redact");
            assert("advice"@[0] != "redact"@[0]);
        }
        if same_text(key, "advice") {
            if let Some(obligation) = parse_advice(value) {
                obligations.push(obligation);
                assert(obligation_values(obligations@) == obligation_values(
                    obligations_before,
                ).push(obligation@));
            }
        } else if include_redactions && same_text(key, "redact") {
            if let Some(found) = parse_redaction(value) {
                redactions.push(found);
                assert(redaction_values(redactions@) == redaction_values(
                    redactions_before,
                ).push(found@));
            }
        }
        i += 1;
    }
    assert(facts.take(facts.len() as int) == facts);
    (obligations, redactions)
}

proof fn lemma_advised_holds(annotations: Seq<(Seq<char>, Seq<char>)>, i: int)
    requires
        0 <= i < annotations.len(),
    ensures
        annotations[i].0 == "advice"@ && advice(annotations[i].1) is Some ==> advised(
            annotations,
        ).contains(advice(annotations[i].1)->0),
        annotations[i].0 == "redact"@ && redaction(annotations[i].1) is Some ==> redacted(
            annotations,
        ).contains(redaction(annotations[i].1)->0),
    decreases annotations.len(),
{
    broadcast use vstd::seq_lib::group_seq_properties;

    if i < annotations.len() - 1 {
        lemma_advised_holds(annotations.drop_last(), i);
    }
}

/// The advice and the redactions of policies stack: each of them is among the obligations and the
/// redactions of the whole.
pub proof fn law_advice_stacks(policies: Seq<PolicyFacts>, i: int, j: int)
    requires
        0 <= i < policies.len(),
        0 <= j < policies[i].annotations.len(),
    ensures
        ({
            let (key, value) = policies[i].annotations[j];
            &&& key == "advice"@ && advice(value) is Some ==> all_advised(policies).contains(
                advice(value)->0,
            )
            &&& key == "redact"@ && redaction(value) is Some ==> all_redacted(policies).contains(
                redaction(value)->0,
            )
        }),
    decreases policies.len(),
{
    broadcast use vstd::seq_lib::group_seq_properties;

    if i < policies.len() - 1 {
        law_advice_stacks(policies.drop_last(), i, j);
    } else {
        lemma_advised_holds(policies[i].annotations, j);
    }
}

proof fn lemma_other_annotations(annotations: Seq<(Seq<char>, Seq<char>)>)
    ensures
        (forall|i: int| 0 <= i < annotations.len() ==> (#[trigger] annotations[i]).0 != "advice"@)
            ==> advised(annotations).len() == 0,
        (forall|i: int| 0 <= i < annotations.len() ==> (#[trigger] annotations[i]).0 != "redact"@)
            ==> redacted(annotations).len() == 0,
    decreases annotations.len(),
{
    if annotations.len() > 0 {
        let before = annotations.drop_last();
        assert(forall|i: int|
            0 <= i < before.len() ==> #[trigger] before[i] == annotations[i]);
        lemma_other_annotations(before);
    }
}

/// Tells whether one of the policies has an annotation of this key.
pub open spec fn annotated(policies: Seq<PolicyFacts>, key: Seq<char>) -> bool {
    exists|i: int, j: int|
        0 <= i < policies.len() && 0 <= j < policies[i].annotations.len()
            && #[trigger] policies[i].annotations[j].0 == key
}

/// Policies without these annotations have no obligations and no redactions, whatever other
/// annotations they have.
pub proof fn law_other_annotations_are_ignored(policies: Seq<PolicyFacts>)
    ensures
        !annotated(policies, "advice"@) ==> all_advised(policies).len() == 0,
        !annotated(policies, "redact"@) ==> all_redacted(policies).len() == 0,
    decreases policies.len(),
{
    if policies.len() > 0 {
        let before = policies.drop_last();
        let last = policies.len() - 1;
        law_other_annotations_are_ignored(before);
        lemma_other_annotations(policies.last().annotations);
        assert forall|key: Seq<char>| !annotated(policies, key) implies !annotated(before, key) by {
            if annotated(before, key) {
                let (i, j) = choose|i: int, j: int|
                    0 <= i < before.len() && 0 <= j < before[i].annotations.len()
                        && #[trigger] before[i].annotations[j].0 == key;
                assert(policies[i].annotations[j].0 == key);
            }
        }
        assert forall|j: int| 0 <= j < policies.last().annotations.len() implies annotated(
            policies,
            (#[trigger] policies.last().annotations[j]).0,
        ) by {
            assert(policies[last].annotations[j] == policies.last().annotations[j]);
        }
    }
}

/// What is known of the policies of a list.
pub open spec fn facts_of(matched: Seq<&MatchedPolicy>) -> Seq<PolicyFacts> {
    matched.map_values(|m: &MatchedPolicy| m@)
}

/// The obligations of policies, one policy after the other, and, if they are asked for, the
/// redactions.
pub fn extract_advice(matched: &Vec<&MatchedPolicy>, include_redactions: bool) -> (r: (
    Vec<Obligation>,
    Vec<Redaction>,
))
    ensures
        obligation_values(r.0@) == all_advised(facts_of(matched@)),
        redaction_values(r.1@) == (if include_redactions {
            all_redacted(facts_of(matched@))
        } else {
            Seq::empty()
        }),
{
    let mut obligations: Vec<Obligation> = Vec::new();
    let mut redactions: Vec<Redaction> = Vec::new();
    let mut i: usize = 0;
    let ghost facts = facts_of(matched@);
    assert(facts.take(0) == Seq::<PolicyFacts>::empty());
    assert(obligation_values(obligations@) == Seq::<ObligationValue>::empty());
    assert(redaction_values(redactions@) == Seq::<RedactionValue>::empty());
    while i < matched.len()
        invariant
            i <= matched@.len(),
            facts == facts_of(matched@),
            obligation_values(obligations@) == all_advised(facts.take(i as int)),
            redaction_values(redactions@) == (if include_redactions {
                all_redacted(facts.take(i as int))
            } else {
                Seq::empty()
            }),
        decreases matched@.len() - i,
    {
        let ghost obligations_before = obligations@;
        let ghost redactions_before = redactions@;
        let (mut more_obligations, mut more_redactions) = annotation_advice(
            &matched[i].annotations,
            include_redactions,
        );
        let ghost obligations_more = more_obligations@;
        let ghost redactions_more = more_redactions@;
        obligations.append(&mut more_obligations);
        redactions.append(&mut more_redactions);
        proof {
            let t = facts.take(i + 1);
            assert(t.drop_last() == facts.take(i as int));
            assert(t.last() == matched@[i as int]@);
            assert(obligation_values(obligations@) == obligation_values(obligations_before)
                + obligation_values(obligations_more));
            assert(redaction_values(redactions@) == redaction_values(redactions_before)
                + redaction_values(redactions_more));
            assert(Seq::<RedactionValue>::empty() + Seq::<RedactionValue>::empty() == Seq::<
                RedactionValue,
            >::empty());
        }
        i += 1;
    }
    assert(facts.take(facts.len() as int) == facts);
    (obligations, redactions)
}

/// The advice format, in full. White space may stand around the kind and around the rest. A kind alone,
/// or with nothing behind the colon, has no arguments; otherwise the arguments are the JSON value that
/// the rest is, or the rest as a text where it is none.
pub proof fn law_advice_format(
    a: Seq<char>,
    kind: Seq<char>,
    b: Seq<char>,
    c: Seq<char>,
    rest: Seq<char>,
    d: Seq<char>,
)
    requires
        kind.len() > 0,
        !is_space(kind[0]),
        !is_space(kind[kind.len() - 1]),
        forall|i: int| 0 <= i < kind.len() ==> #[trigger] kind[i] != ':',
        rest.len() > 0 ==> !is_space(rest[0]) && !is_space(rest[rest.len() - 1]),
        forall|i: int| 0 <= i < a.len() ==> is_space(#[trigger] a[i]),
        forall|i: int| 0 <= i < b.len() ==> is_space(#[trigger] b[i]),
        forall|i: int| 0 <= i < c.len() ==> is_space(#[trigger] c[i]),
        forall|i: int| 0 <= i < d.len() ==> is_space(#[trigger] d[i]),
    ensures
        advice(a + kind + b) == Some(ObligationValue { kind, args: JsonValue::Null }),
        advice((a + kind + b) + seq![':'] + (c + rest + d)) == Some(
            ObligationValue {
                kind,
                args: if rest.len() == 0 {
                    JsonValue::Null
                } else {
                    match json_read(rest) {
                        Some(value) => value,
                        None => JsonValue::Text(rest),
                    }
                },
            },
        ),
{
    assert(!kind.contains(':'));
    law_advice_of_a_kind_alone(a, kind, b);
    lemma_padded_parts(a, kind, b, c, rest, d);
    lemma_trimmed_is_same(rest);
}

/// There is no advice exactly where nothing but white space stands before the first colon.
pub proof fn law_no_advice(value: Seq<char>)
    ensures
        advice(value) is None <==> forall|i: int|
            0 <= i < value.len() && (forall|j: int| 0 <= j <= i ==> #[trigger] value[j] != ':')
                ==> is_space(#[trigger] value[i]),
{
    let at = first_place(value, ':');
    let front = value.take(at);
    lemma_place(value, ':');
    law_no_advice_without_a_kind(value);
    law_trimming(front);
    if blank(front) {
        assert forall|i: int|
            0 <= i < value.len() && (forall|j: int|
                0 <= j <= i ==> #[trigger] value[j] != ':') implies is_space(
            #[trigger] value[i],
        ) by {
            if i >= at {
                assert(value[at] == ':');
            }
            assert(front[i] == value[i]);
        }
    } else {
        let i = choose|i: int| 0 <= i < front.len() && !is_space(#[trigger] front[i]);
        assert(front[i] == value[i]);
        assert(!is_space(value[i]));
    }
}

/// The redaction that a `@redact` annotation stands for carries the annotation as it is written, and
/// puts three stars in its place. A blank annotation stands for none.
pub proof fn law_redaction_is_verbatim(value: Seq<char>)
    ensures
        (exists|i: int| 0 <= i < value.len() && !is_space(#[trigger] value[i])) <==> redaction(
            value,
        ) is Some,
        redaction(value) matches Some(r) ==> r.json_pointer == value && r.replacement
            == JsonValue::Text(seq!['*', '*', '*']),
{
    law_trimming(value);
    reveal_strlit("***");
    assert("***"@ == seq!['*', '*', '*']);
}

/// Annotations are gone through one by one and in order: an `@advice` gives its obligation, a
/// `@redact` its redaction, and no other annotation gives anything.
pub proof fn law_annotations_one_by_one(
    a: Seq<(Seq<char>, Seq<char>)>,
    b: Seq<(Seq<char>, Seq<char>)>,
    key: Seq<char>,
    value: Seq<char>,
)
    ensures
        advised(a + b) == advised(a) + advised(b),
        redacted(a + b) == redacted(a) + redacted(b),
        advised(seq![(key, value)]) == (if key == "advice"@ {
            match advice(value) {
                Some(obligation) => seq![obligation],
                None => Seq::empty(),
            }
        } else {
            Seq::empty()
        }),
        redacted(seq![(key, value)]) == (if key == "redact"@ && exists|i: int|
            0 <= i < value.len() && !is_space(#[trigger] value[i]) {
            seq![RedactionValue { json_pointer: value, replacement: JsonValue::Text("***"@) }]
        } else {
            Seq::empty()
        }),
    decreases b.len(),
{
    let one = seq![(key, value)];
    assert(one.drop_last() == Seq::<(Seq<char>, Seq<char>)>::empty());
    assert(advised(one.drop_last()) == Seq::<ObligationValue>::empty());
    assert(redacted(one.drop_last()) == Seq::<RedactionValue>::empty());
    law_redaction_is_verbatim(value);
    if b.len() > 0 {
        let before = b.drop_last();
        law_annotations_one_by_one(a, before, key, value);
        assert((a + b).drop_last() == a + before);
        assert((a + b).last() == b.last());
        assert(advised(a + b) == advised(a) + advised(b));
        assert(redacted(a + b) == redacted(a) + redacted(b));
    } else {
        assert(a + b == a);
        assert(advised(a) + advised(b) == advised(a));
        assert(redacted(a) + redacted(b) == redacted(a));
    }
}

/// Policies are gone through one by one and in order, and each gives what its annotations give.
pub proof fn law_policies_one_by_one(
    a: Seq<PolicyFacts>,
    b: Seq<PolicyFacts>,
    policy: PolicyFacts,
)
    ensures
        all_advised(a + b) == all_advised(a) + all_advised(b),
        all_redacted(a + b) == all_redacted(a) + all_redacted(b),
        all_advised(seq![policy]) == advised(policy.annotations),
        all_redacted(seq![policy]) == redacted(policy.annotations),
        all_advised(Seq::empty()).len() == 0,
        all_redacted(Seq::empty()).len() == 0,
    decreases b.len(),
{
    let one = seq![policy];
    assert(one.drop_last() == Seq::<PolicyFacts>::empty());
    assert(all_advised(one.drop_last()) == Seq::<ObligationValue>::empty());
    assert(all_redacted(one.drop_last()) == Seq::<RedactionValue>::empty());
    assert(all_advised(one) == advised(policy.annotations));
    assert(all_redacted(one) == redacted(policy.annotations));
    if b.len() > 0 {
        let before = b.drop_last();
        law_policies_one_by_one(a, before, policy);
        assert((a + b).drop_last() == a + before);
        assert((a + b).last() == b.last());
        assert(all_advised(a + b) == all_advised(a) + all_advised(b));
        assert(all_redacted(a + b) == all_redacted(a) + all_redacted(b));
    } else {
        assert(a + b == a);
        assert(all_advised(a) + all_advised(b) == all_advised(a));
        assert(all_redacted(a) + all_redacted(b) == all_redacted(a));
    }
}

proof fn lemma_redaction_comes_from(annotations: Seq<(Seq<char>, Seq<char>)>, k: int) -> (j: int)
    requires
        0 <= k < redacted(annotations).len(),
    ensures
        0 <= j < annotations.len(),
        annotations[j] == ("redact"@, redacted(annotations)[k].json_pointer),
    decreases annotations.len(),
{
    let before = annotations.drop_last();
    if k < redacted(before).len() {
        let j = lemma_redaction_comes_from(before, k);
        assert(before[j] == annotations[j]);
        j
    } else {
        assert(annotations.last() == ("redact"@, redacted(annotations)[k].json_pointer));
        annotations.len() - 1
    }
}

/// Every redaction of policies carries the value of a `@redact` annotation of one of them.
pub proof fn law_redactions_come_from_annotations(policies: Seq<PolicyFacts>, k: int) -> (r: (
    int,
    int,
))
    requires
        0 <= k < all_redacted(policies).len(),
    ensures
        0 <= r.0 < policies.len(),
        0 <= r.1 < policies[r.0].annotations.len(),
        policies[r.0].annotations[r.1] == ("redact"@, all_redacted(policies)[k].json_pointer),
        all_redacted(policies)[k].replacement == JsonValue::Text("***"@),
    decreases policies.len(),
{
    let before = policies.drop_last();
    let last = policies.last().annotations;
    if k < all_redacted(before).len() {
        let (i, j) = law_redactions_come_from_annotations(before, k);
        assert(before[i] == policies[i]);
        (i, j)
    } else {
        let at = k - all_redacted(before).len();
        let j = lemma_redaction_comes_from(last, at);
        lemma_replacements(last, at);
        (policies.len() - 1, j)
    }
}

proof fn lemma_replacements(annotations: Seq<(Seq<char>, Seq<char>)>, k: int)
    requires
        0 <= k < redacted(annotations).len(),
    ensures
        redacted(annotations)[k].replacement == JsonValue::Text("***"@),
    decreases annotations.len(),
{
    if k < redacted(annotations.drop_last()).len() {
        lemma_replacements(annotations.drop_last(), k);
    }
}

/// What is known of matched policies is what stands in their fields, in order.
pub proof fn law_facts_are_the_fields(
    matched: Seq<&MatchedPolicy>,
    annotations: Seq<(String, String)>,
    i: int,
    j: int,
)
    ensures
        facts_of(matched).len() == matched.len(),
        0 <= i < matched.len() ==> {
            &&& facts_of(matched)[i].id == matched[i].id@
            &&& facts_of(matched)[i].forbids == matched[i].forbids
            &&& facts_of(matched)[i].annotations.len() == matched[i].annotations@.len()
            &&& 0 <= j < matched[i].annotations@.len() ==> facts_of(matched)[i].annotations[j] == (
                matched[i].annotations@[j].0@,
                matched[i].annotations@[j].1@,
            )
        },
        pairs(annotations).len() == annotations.len(),
        0 <= j < annotations.len() ==> pairs(annotations)[j] == (
            annotations[j].0@,
            annotations[j].1@,
        ),
{
}

} // verus!
