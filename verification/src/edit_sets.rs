//! Applying `--set` values to the state a structured edit asks for.

use vstd::prelude::*;

use crate::desired::{texts, DesiredTest};
use crate::diagnostic::{Diagnostic, DiagnosticSeverity};
use crate::edit_checks::{covers_texts, desired_state, find_test, first_test, target_texts, texts_eq, StateView};
use crate::hash::ContentHash;
use crate::ids::VoId;
use crate::operations::target_text;
use crate::scan::ScanResult;
use crate::source::TargetRef;
use crate::test_edits::{first_changed, verify_other_test_hashes};
use crate::test_entity::TestEntity;
use crate::discovery::forward_slashes;
use crate::forms::{answer_for, find_answer, list_answer, scalar_answer, trim, value_strings, FormValue};
use crate::queries::{answer_strings, quoted};
use crate::text::{push_text, text_eq};

verus! {

/// The fields a `--set` value may name.
pub open spec fn settable(name: Seq<char>) -> bool {
    name == "covers"@ || name == "target"@ || name == "targets"@ || name == "intent"@ || name == "behavior"@
        || name == "input"@ || name == "expect"@ || name == "kind"@ || name == "test_kind"@ || name == "case"@
        || name == "related"@ || name == "fn_name"@
}

/// The fields whose value is taken as one text.
pub open spec fn takes_text(name: Seq<char>) -> bool {
    name == "target"@ || name == "intent"@ || name == "behavior"@ || name == "input"@ || name == "expect"@
        || name == "kind"@ || name == "test_kind"@ || name == "fn_name"@
}

/// The text of a scalar value.
pub open spec fn scalar_text(v: FormValue) -> Seq<char> {
    match v {
        FormValue::Scalar(s) => s@,
        FormValue::List(_) => Seq::empty(),
    }
}

/// One `--set` value applied to a state: the named field replaced (a
/// list field by the value's items, a text field by its text; `test_kind`
/// sets the kind `unit-<text>`, whatever the number of targets); or the
/// name, when no field may be set by it.
pub open spec fn set_step(v: StateView, name: Seq<char>, value: FormValue) -> Result<StateView, Seq<char>> {
    let t = scalar_text(value);
    if name == "covers"@ {
        Ok(StateView { covers: answer_strings(value), ..v })
    } else if name == "target"@ {
        Ok(StateView { targets: seq![t], ..v })
    } else if name == "targets"@ {
        Ok(StateView { targets: answer_strings(value), ..v })
    } else if name == "intent"@ || name == "behavior"@ {
        Ok(StateView { intent: t, ..v })
    } else if name == "input"@ {
        Ok(StateView { input: Some(t), ..v })
    } else if name == "expect"@ {
        Ok(StateView { expect: Some(t), ..v })
    } else if name == "kind"@ {
        Ok(StateView { kind: Some(t), ..v })
    } else if name == "test_kind"@ {
        Ok(StateView { kind: Some("unit-"@ + t), ..v })
    } else if name == "case"@ {
        Ok(StateView { cases: answer_strings(value), ..v })
    } else if name == "related"@ {
        Ok(StateView { related: answer_strings(value), ..v })
    } else if name == "fn_name"@ {
        Ok(StateView { fn_name: t, ..v })
    } else {
        Err(name)
    }
}

/// The `--set` values applied in order; the state reached and, at the
/// first name that no field may be set by, that name.
pub open spec fn sets_applied(v: StateView, set: Seq<(String, FormValue)>) -> (StateView, Option<Seq<char>>)
    decreases set.len(),
{
    if set.len() == 0 {
        (v, None)
    } else {
        let (w, bad) = sets_applied(v, set.drop_last());
        if bad is Some {
            (w, bad)
        } else {
            match set_step(w, set.last().0@, set.last().1) {
                Ok(x) => (x, None),
                Err(n) => (w, Some(n)),
            }
        }
    }
}

proof fn lemma_sets_stop(v: StateView, set: Seq<(String, FormValue)>, i: int)
    requires
        0 <= i <= set.len(),
        sets_applied(v, set.take(i)).1 is Some,
    ensures
        sets_applied(v, set) == sets_applied(v, set.take(i)),
    decreases set.len(),
{
    if i < set.len() {
        assert(set.drop_last().take(i) =~= set.take(i));
        lemma_sets_stop(v, set.drop_last(), i);
    } else {
        assert(set.take(i) =~= set);
    }
}

impl DesiredTest {
    /// Applies `--set` values (each field name once, ascending, as a map
    /// by name holds them) in order (see `sets_applied`). A field whose
    /// value is taken as one text must be given a scalar. A name that no
    /// field may be set by is an `E-OP-001` error naming it; the values
    /// before it stay applied.
    pub fn apply_sets(&mut self, set: &Vec<(String, FormValue)>) -> (r: Result<(), Diagnostic>)
        requires
            forall|i: int| 0 <= i < set@.len() && takes_text((#[trigger] set@[i]).0@) ==> set@[i].1 is Scalar,
        ensures
            ({
                let (v, bad) = sets_applied(desired_state(*old(self)), set@);
                &&& desired_state(*final(self)) == v
                &&& match bad {
                    None => r is Ok,
                    Some(n) => r matches Err(d) && d.code@ == "E-OP-001"@ && d.message@ == "test edit cannot set field `"@
                        + n + "`"@ && d.severity == DiagnosticSeverity::Error,
                }
            }),
    {
        proof {
            reveal_strlit("covers");
            reveal_strlit("target");
            reveal_strlit("targets");
            reveal_strlit("intent");
            reveal_strlit("behavior");
            reveal_strlit("input");
            reveal_strlit("expect");
            reveal_strlit("kind");
            reveal_strlit("test_kind");
            reveal_strlit("case");
            reveal_strlit("related");
            reveal_strlit("fn_name");
        }
        let ghost start = desired_state(*self);
        let mut i: usize = 0;
        assert(set@.take(0) =~= Seq::<(String, FormValue)>::empty());
        while i < set.len()
            invariant
                i <= set@.len(),
                start == desired_state(*old(self)),
                forall|k: int| 0 <= k < set@.len() && takes_text((#[trigger] set@[k]).0@) ==> set@[k].1 is Scalar,
                sets_applied(start, set@.take(i as int)) == (desired_state(*self), None::<Seq<char>>),
            decreases set.len() - i,
        {
            assert(set@.take(i as int + 1).drop_last() =~= set@.take(i as int));
            assert(set@.take(i as int + 1).last() == set@[i as int]);
            let name = set[i].0.as_str();
            let value = &set[i].1;
            let ghost before = desired_state(*self);
            let text = match value {
                FormValue::Scalar(s) => s.clone(),
                FormValue::List(_) => String::new(),
            };
            assert(text@ == scalar_text(*value));
            if text_eq(name, "covers") {
                self.covers = value_strings(value);
            } else if text_eq(name, "target") {
                self.targets = vec![text];
                assert(texts(self.targets@) =~= seq![scalar_text(*value)]);
            } else if text_eq(name, "targets") {
                self.targets = value_strings(value);
            } else if text_eq(name, "intent") || text_eq(name, "behavior") {
                self.intent = text;
            } else if text_eq(name, "input") {
                self.input = Some(text);
            } else if text_eq(name, "expect") {
                self.expect = Some(text);
            } else if text_eq(name, "kind") {
                self.kind = Some(text);
            } else if text_eq(name, "test_kind") {
                let mut kind = String::new();
                push_text(&mut kind, "unit-");
                push_text(&mut kind, text.as_str());
                self.kind = Some(kind);
            } else if text_eq(name, "case") {
                self.cases = value_strings(value);
            } else if text_eq(name, "related") {
                self.related = value_strings(value);
            } else if text_eq(name, "fn_name") {
                self.fn_name = text;
            } else {
                proof {
                    lemma_sets_stop(start, set@, i as int + 1);
                }
                return Err(Diagnostic::error("E-OP-001", quoted("test edit cannot set field `", name, "`")));
            }
            assert(desired_state(*self) =~~= set_step(before, name@, *value)->Ok_0);
            i = i + 1;
        }
        assert(set@.take(i as int) =~= set@);
        Ok(())
    }
}

/// The non-empty list answer `name`, or the error message.
pub open spec fn list_ans(answers: Seq<(String, FormValue)>, name: Seq<char>) -> Result<Seq<Seq<char>>, Seq<char>> {
    match answer_for(answers, name) {
        Some(FormValue::List(items)) if items@.len() > 0 => Ok(texts(items@)),
        _ => Err("desired state requires list answer `"@ + name + "`"@),
    }
}

/// The non-blank scalar answer `name`, or the error message.
pub open spec fn scalar_ans(answers: Seq<(String, FormValue)>, name: Seq<char>) -> Result<Seq<char>, Seq<char>> {
    match answer_for(answers, name) {
        Some(FormValue::Scalar(v)) if trim(v@).len() > 0 => Ok(v@),
        _ => Err("desired state requires scalar answer `"@ + name + "`"@),
    }
}

/// The text of the answer `name`, if given.
pub open spec fn optional_ans(answers: Seq<(String, FormValue)>, name: Seq<char>) -> Option<Seq<char>> {
    match answer_for(answers, name) {
        Some(v) => Some(scalar_text(v)),
        None => None,
    }
}

/// A complete set of form answers applied to a state, field by field in
/// this order, stopping at the first missing answer (the state reached and
/// the error message): `covers` (a list); the targets (the `targets` list
/// if given, else the one `target`); the intent (`behavior`); `input` and
/// `expect` if given (else none); `fn_name`; then no cases and no related
/// tests, the `file` with forward slashes if given, and the kind
/// `unit-<test_kind>`, whatever the form (none without a `test_kind`).
pub open spec fn answers_applied(v: StateView, answers: Seq<(String, FormValue)>) -> (
    StateView,
    Option<Seq<char>>,
) {
    match list_ans(answers, "covers"@) {
        Err(m) => (v, Some(m)),
        Ok(c) => {
            let v1 = StateView { covers: c, ..v };
            let tg = if answer_for(answers, "targets"@) is Some {
                list_ans(answers, "targets"@)
            } else {
                match scalar_ans(answers, "target"@) {
                    Ok(t) => Ok(seq![t]),
                    Err(m) => Err(m),
                }
            };
            match tg {
                Err(m) => (v1, Some(m)),
                Ok(ts) => {
                    let v2 = StateView { targets: ts, ..v1 };
                    match scalar_ans(answers, "behavior"@) {
                        Err(m) => (v2, Some(m)),
                        Ok(b) => {
                            let v3 = StateView {
                                intent: b,
                                input: optional_ans(answers, "input"@),
                                expect: optional_ans(answers, "expect"@),
                                ..v2
                            };
                            match scalar_ans(answers, "fn_name"@) {
                                Err(m) => (v3, Some(m)),
                                Ok(f) => (
                                    StateView {
                                        fn_name: f,
                                        cases: Seq::empty(),
                                        related: Seq::empty(),
                                        file: match optional_ans(answers, "file"@) {
                                            Some(t) => forward_slashes(t),
                                            None => v3.file,
                                        },
                                        kind: match optional_ans(answers, "test_kind"@) {
                                            Some(k) => Some("unit-"@ + k),
                                            None => None,
                                        },
                                        ..v3
                                    },
                                    None,
                                ),
                            }
                        },
                    }
                },
            }
        },
    }
}

fn optional_text(answers: &Vec<(String, FormValue)>, name: &str) -> (r: Option<String>)
    ensures
        match r {
            Some(t) => optional_ans(answers@, name@) == Some(t@),
            None => optional_ans(answers@, name@) is None,
        },
{
    match find_answer(answers, name) {
        Some(FormValue::Scalar(s)) => Some(s.clone()),
        Some(FormValue::List(_)) => Some(String::new()),
        None => None,
    }
}

impl DesiredTest {
    /// Applies a complete set of answers to a form (see
    /// `answers_applied`). The answers `input`, `expect`, `file` and
    /// `test_kind` must be scalars where given. A missing answer is an
    /// `E-OP-001` error; the fields before it stay applied.
    pub fn apply_complete_answers(&mut self, answers: &Vec<(String, FormValue)>) -> (r: Result<
        (),
        Diagnostic,
    >)
        requires
            answer_for(answers@, "input"@) matches Some(v) ==> v is Scalar,
            answer_for(answers@, "expect"@) matches Some(v) ==> v is Scalar,
            answer_for(answers@, "file"@) matches Some(v) ==> v is Scalar,
            answer_for(answers@, "test_kind"@) matches Some(v) ==> v is Scalar,
        ensures
            ({
                let (v, bad) = answers_applied(desired_state(*old(self)), answers@);
                &&& desired_state(*final(self)) == v
                &&& match bad {
                    None => r is Ok,
                    Some(m) => r matches Err(d) && d.code@ == "E-OP-001"@ && d.message@ == m,
                }
            }),
    {
        proof {
            reveal_strlit("covers");
            reveal_strlit("targets");
            reveal_strlit("target");
            reveal_strlit("behavior");
            reveal_strlit("input");
            reveal_strlit("expect");
            reveal_strlit("fn_name");
            reveal_strlit("file");
            reveal_strlit("test_kind");
        }
        self.covers = match list_answer(answers, "covers") {
            Ok(c) => c,
            Err(d) => {
                return Err(d);
            },
        };
        self.targets = if find_answer(answers, "targets").is_some() {
            match list_answer(answers, "targets") {
                Ok(t) => t,
                Err(d) => {
                    return Err(d);
                },
            }
        } else {
            match scalar_answer(answers, "target") {
                Ok(t) => {
                    let v = vec![t];
                    assert(texts(v@) =~= seq![v@[0]@]);
                    v
                },
                Err(d) => {
                    return Err(d);
                },
            }
        };
        self.intent = match scalar_answer(answers, "behavior") {
            Ok(b) => b,
            Err(d) => {
                return Err(d);
            },
        };
        self.input = optional_text(answers, "input");
        self.expect = optional_text(answers, "expect");
        self.fn_name = match scalar_answer(answers, "fn_name") {
            Ok(f) => f,
            Err(d) => {
                return Err(d);
            },
        };
        self.cases = Vec::new();
        self.related = Vec::new();
        match optional_text(answers, "file") {
            Some(file) => {
                let chars = crate::text::chars_of(file.as_str());
                let mut out: Vec<char> = Vec::new();
                let mut k: usize = 0;
                while k < chars.len()
                    invariant
                        k <= chars@.len(),
                        out@ == forward_slashes(chars@.take(k as int)),
                    decreases chars.len() - k,
                {
                    let c = if chars[k] == '\\' { '/' } else { chars[k] };
                    out.push(c);
                    assert(forward_slashes(chars@.take(k as int + 1)) =~= forward_slashes(chars@.take(k as int)).push(c));
                    k = k + 1;
                }
                assert(chars@.take(k as int) =~= chars@);
                self.file = crate::text::string_from_chars(&out);
            },
            None => {},
        }
        self.kind = match optional_text(answers, "test_kind") {
            Some(k) => {
                let mut kind = String::new();
                push_text(&mut kind, "unit-");
                push_text(&mut kind, k.as_str());
                Some(kind)
            },
            None => None,
        };
        assert(texts(self.cases@) =~= Seq::<Seq<char>>::empty());
        assert(texts(self.related@) =~= Seq::<Seq<char>>::empty());
        Ok(())
    }
}

/// A created test has what the answers asked for: the covered objectives
/// of a `covers` answer, the intent of a `behavior` answer, and the
/// targets of a `target` answer, else of a `targets` answer (each as
/// texts, in order; an answer not given asks nothing).
pub open spec fn matches_answers(test: TestEntity, answers: Seq<(String, FormValue)>) -> bool {
    let targets = test.targets@.map_values(|t: TargetRef| target_text(t));
    &&& (answer_for(answers, "covers"@) matches Some(v) ==> answer_strings(v) == test.covers@.map_values(
        |x: VoId| x@,
    ))
    &&& (answer_for(answers, "behavior"@) matches Some(v) ==> scalar_text(v) == test.intent@)
    &&& match answer_for(answers, "target"@) {
        Some(v) => answer_strings(v) == targets,
        None => match answer_for(answers, "targets"@) {
            Some(v) => answer_strings(v) == targets,
            None => true,
        },
    }
}

/// Whether a created test has what the answers asked for (see
/// `matches_answers`); a `behavior` answer must be a scalar.
pub fn test_matches_answers(test: &TestEntity, answers: &Vec<(String, FormValue)>) -> (r: bool)
    requires
        answer_for(answers@, "behavior"@) matches Some(v) ==> v is Scalar,
    ensures
        r == matches_answers(*test, answers@),
{
    proof {
        reveal_strlit("covers");
        reveal_strlit("behavior");
        reveal_strlit("target");
        reveal_strlit("targets");
    }
    let covers_ok = match find_answer(answers, "covers") {
        Some(v) => texts_eq(&value_strings(v), &covers_texts(&test.covers)),
        None => true,
    };
    let behavior_ok = match find_answer(answers, "behavior") {
        Some(FormValue::Scalar(b)) => text_eq(b.as_str(), test.intent.as_str()),
        Some(FormValue::List(_)) => text_eq("", test.intent.as_str()),
        None => true,
    };
    let targets = target_texts(&test.targets);
    let targets_ok = match find_answer(answers, "target") {
        Some(v) => texts_eq(&value_strings(v), &targets),
        None => match find_answer(answers, "targets") {
            Some(v) => texts_eq(&value_strings(v), &targets),
            None => true,
        },
    };
    proof {
        reveal_strlit("");
    }
    covers_ok && behavior_ok && targets_ok
}

/// Checks the rescan `after` of a test creation: the first test with the
/// id `test_id` must be there (else an `E-OP-003` error saying it was not
/// recognized) and have what the answers asked for (else an `E-OP-003`
/// error saying it does not match); then every test in `before` (each id
/// once, ascending) must keep its hash (see `verify_other_test_hashes`).
pub fn verify_create(
    after: &ScanResult,
    test_id: &str,
    answers: &Vec<(String, FormValue)>,
    before: &Vec<(String, ContentHash)>,
) -> (r: Result<(), Diagnostic>)
    requires
        answer_for(answers@, "behavior"@) matches Some(v) ==> v is Scalar,
        crate::project_checks::strictly_ascending(before@.map_values(|p: (String, ContentHash)| p.0)),
    ensures
        match first_test(after.tests@, test_id@) {
            None => r matches Err(d) && d.code@ == "E-OP-003"@ && d.severity == DiagnosticSeverity::Error && d.message@
                == "created Test `"@ + test_id@ + "` was not recognized by the scanner"@,
            Some(t) => if !matches_answers(t, answers@) {
                r matches Err(d) && d.code@ == "E-OP-003"@ && d.severity == DiagnosticSeverity::Error && d.message@
                    == "created Test `"@ + test_id@ + "` does not match the desired state"@
            } else {
                let bv = before@.map_values(|p: (String, ContentHash)| (p.0@, p.1@));
                match first_changed(after.tests@, bv, None) {
                    None => r is Ok,
                    Some(i) => r matches Err(d) && d.code@ == "E-OP-003"@ && d.message@ == "operation changed Test `"@
                        + bv[i].0 + "` outside its edit boundary"@ && d.severity == DiagnosticSeverity::Error,
                }
            },
        },
{
    let created = match find_test(&after.tests, test_id) {
        Some(t) => t,
        None => {
            return Err(
                Diagnostic::error("E-OP-003", quoted("created Test `", test_id, "` was not recognized by the scanner")),
            );
        },
    };
    if !test_matches_answers(created, answers) {
        return Err(
            Diagnostic::error("E-OP-003", quoted("created Test `", test_id, "` does not match the desired state")),
        );
    }
    verify_other_test_hashes(after, before, None)
}

/// The names a `--set` value may carry.
pub open spec fn allowed_names() -> Set<Seq<char>> {
    set![
        "covers"@,
        "target"@,
        "targets"@,
        "intent"@,
        "behavior"@,
        "input"@,
        "expect"@,
        "kind"@,
        "test_kind"@,
        "case"@,
        "related"@,
        "fn_name"@,
    ]
}

/// The last entry of `set` whose name is among `names`, with its name.
pub open spec fn last_entry(set: Seq<(String, FormValue)>, names: Set<Seq<char>>) -> Option<(Seq<char>, FormValue)>
    decreases set.len(),
{
    if set.len() == 0 {
        None
    } else if names.contains(set.last().0@) {
        Some((set.last().0@, set.last().1))
    } else {
        last_entry(set.drop_last(), names)
    }
}

/// The strings a value holds: a list's items, or the one scalar.
pub open spec fn value_texts(v: FormValue) -> Seq<Seq<char>> {
    match v {
        FormValue::List(items) => items@.map_values(|s: String| s@),
        FormValue::Scalar(s) => seq![s@],
    }
}

/// The text of a scalar value (a list has none).
pub open spec fn value_text(v: FormValue) -> Seq<char> {
    match v {
        FormValue::Scalar(s) => s@,
        FormValue::List(_) => Seq::empty(),
    }
}

proof fn lemma_field_names_differ()
    ensures
        "covers"@ != "target"@,
        "covers"@ != "targets"@,
        "covers"@ != "intent"@,
        "covers"@ != "behavior"@,
        "covers"@ != "input"@,
        "covers"@ != "expect"@,
        "covers"@ != "kind"@,
        "covers"@ != "test_kind"@,
        "covers"@ != "case"@,
        "covers"@ != "related"@,
        "covers"@ != "fn_name"@,
        "target"@ != "targets"@,
        "target"@ != "intent"@,
        "target"@ != "behavior"@,
        "target"@ != "input"@,
        "target"@ != "expect"@,
        "target"@ != "kind"@,
        "target"@ != "test_kind"@,
        "target"@ != "case"@,
        "target"@ != "related"@,
        "target"@ != "fn_name"@,
        "targets"@ != "intent"@,
        "targets"@ != "behavior"@,
        "targets"@ != "input"@,
        "targets"@ != "expect"@,
        "targets"@ != "kind"@,
        "targets"@ != "test_kind"@,
        "targets"@ != "case"@,
        "targets"@ != "related"@,
        "targets"@ != "fn_name"@,
        "intent"@ != "behavior"@,
        "intent"@ != "input"@,
        "intent"@ != "expect"@,
        "intent"@ != "kind"@,
        "intent"@ != "test_kind"@,
        "intent"@ != "case"@,
        "intent"@ != "related"@,
        "intent"@ != "fn_name"@,
        "behavior"@ != "input"@,
        "behavior"@ != "expect"@,
        "behavior"@ != "kind"@,
        "behavior"@ != "test_kind"@,
        "behavior"@ != "case"@,
        "behavior"@ != "related"@,
        "behavior"@ != "fn_name"@,
        "input"@ != "expect"@,
        "input"@ != "kind"@,
        "input"@ != "test_kind"@,
        "input"@ != "case"@,
        "input"@ != "related"@,
        "input"@ != "fn_name"@,
        "expect"@ != "kind"@,
        "expect"@ != "test_kind"@,
        "expect"@ != "case"@,
        "expect"@ != "related"@,
        "expect"@ != "fn_name"@,
        "kind"@ != "test_kind"@,
        "kind"@ != "case"@,
        "kind"@ != "related"@,
        "kind"@ != "fn_name"@,
        "test_kind"@ != "case"@,
        "test_kind"@ != "related"@,
        "test_kind"@ != "fn_name"@,
        "case"@ != "related"@,
        "case"@ != "fn_name"@,
        "related"@ != "fn_name"@,
{
    reveal_strlit("covers");
    reveal_strlit("target");
    reveal_strlit("targets");
    reveal_strlit("intent");
    reveal_strlit("behavior");
    reveal_strlit("input");
    reveal_strlit("expect");
    reveal_strlit("kind");
    reveal_strlit("test_kind");
    reveal_strlit("case");
    reveal_strlit("related");
    reveal_strlit("fn_name");
    assert("covers"@[0] != "target"@[0]);
    assert("covers"@.len() != "targets"@.len());
    assert("covers"@[0] != "intent"@[0]);
    assert("covers"@.len() != "behavior"@.len());
    assert("covers"@.len() != "input"@.len());
    assert("covers"@[0] != "expect"@[0]);
    assert("covers"@.len() != "kind"@.len());
    assert("covers"@.len() != "test_kind"@.len());
    assert("covers"@.len() != "case"@.len());
    assert("covers"@.len() != "related"@.len());
    assert("covers"@.len() != "fn_name"@.len());
    assert("target"@.len() != "targets"@.len());
    assert("target"@[0] != "intent"@[0]);
    assert("target"@.len() != "behavior"@.len());
    assert("target"@.len() != "input"@.len());
    assert("target"@[0] != "expect"@[0]);
    assert("target"@.len() != "kind"@.len());
    assert("target"@.len() != "test_kind"@.len());
    assert("target"@.len() != "case"@.len());
    assert("target"@.len() != "related"@.len());
    assert("target"@.len() != "fn_name"@.len());
    assert("targets"@.len() != "intent"@.len());
    assert("targets"@.len() != "behavior"@.len());
    assert("targets"@.len() != "input"@.len());
    assert("targets"@.len() != "expect"@.len());
    assert("targets"@.len() != "kind"@.len());
    assert("targets"@.len() != "test_kind"@.len());
    assert("targets"@.len() != "case"@.len());
    assert("targets"@[0] != "related"@[0]);
    assert("targets"@[0] != "fn_name"@[0]);
    assert("intent"@.len() != "behavior"@.len());
    assert("intent"@.len() != "input"@.len());
    assert("intent"@[0] != "expect"@[0]);
    assert("intent"@.len() != "kind"@.len());
    assert("intent"@.len() != "test_kind"@.len());
    assert("intent"@.len() != "case"@.len());
    assert("intent"@.len() != "related"@.len());
    assert("intent"@.len() != "fn_name"@.len());
    assert("behavior"@.len() != "input"@.len());
    assert("behavior"@.len() != "expect"@.len());
    assert("behavior"@.len() != "kind"@.len());
    assert("behavior"@.len() != "test_kind"@.len());
    assert("behavior"@.len() != "case"@.len());
    assert("behavior"@.len() != "related"@.len());
    assert("behavior"@.len() != "fn_name"@.len());
    assert("input"@.len() != "expect"@.len());
    assert("input"@.len() != "kind"@.len());
    assert("input"@.len() != "test_kind"@.len());
    assert("input"@.len() != "case"@.len());
    assert("input"@.len() != "related"@.len());
    assert("input"@.len() != "fn_name"@.len());
    assert("expect"@.len() != "kind"@.len());
    assert("expect"@.len() != "test_kind"@.len());
    assert("expect"@.len() != "case"@.len());
    assert("expect"@.len() != "related"@.len());
    assert("expect"@.len() != "fn_name"@.len());
    assert("kind"@.len() != "test_kind"@.len());
    assert("kind"@[0] != "case"@[0]);
    assert("kind"@.len() != "related"@.len());
    assert("kind"@.len() != "fn_name"@.len());
    assert("test_kind"@.len() != "case"@.len());
    assert("test_kind"@.len() != "related"@.len());
    assert("test_kind"@.len() != "fn_name"@.len());
    assert("case"@.len() != "related"@.len());
    assert("case"@.len() != "fn_name"@.len());
    assert("related"@[0] != "fn_name"@[0]);
}

/// What one allowed `--set` value makes of a state, field by field.
spec fn step_view(w0: StateView, n: Seq<char>, val: FormValue) -> StateView {
    StateView {
        id: w0.id,
        file: w0.file,
        covers: if n == "covers"@ { value_texts(val) } else { w0.covers },
        targets: if n == "target"@ {
            seq![value_text(val)]
        } else if n == "targets"@ {
            value_texts(val)
        } else {
            w0.targets
        },
        intent: if n == "intent"@ || n == "behavior"@ { value_text(val) } else { w0.intent },
        input: if n == "input"@ { Some(value_text(val)) } else { w0.input },
        expect: if n == "expect"@ { Some(value_text(val)) } else { w0.expect },
        kind: if n == "kind"@ {
            Some(value_text(val))
        } else if n == "test_kind"@ {
            Some("unit-"@ + value_text(val))
        } else {
            w0.kind
        },
        cases: if n == "case"@ { value_texts(val) } else { w0.cases },
        related: if n == "related"@ { value_texts(val) } else { w0.related },
        fn_name: if n == "fn_name"@ { value_text(val) } else { w0.fn_name },
    }
}

proof fn lemma_set_step_fields(w0: StateView, n: Seq<char>, val: FormValue)
    requires
        allowed_names().contains(n),
    ensures
        set_step(w0, n, val) == Ok::<StateView, Seq<char>>(step_view(w0, n, val)),
{
    reveal_strlit("covers");
    reveal_strlit("target");
    reveal_strlit("targets");
    reveal_strlit("intent");
    reveal_strlit("behavior");
    reveal_strlit("input");
    reveal_strlit("expect");
    reveal_strlit("kind");
    reveal_strlit("test_kind");
    reveal_strlit("case");
    reveal_strlit("related");
    reveal_strlit("fn_name");
    lemma_field_names_differ();
    assert(scalar_text(val) == value_text(val));
    assert(answer_strings(val) == value_texts(val));
    if n == "covers"@ {
        assert(set_step(w0, n, val) == Ok::<StateView, Seq<char>>(step_view(w0, n, val)));
    } else if n == "target"@ {
        assert(set_step(w0, n, val) == Ok::<StateView, Seq<char>>(step_view(w0, n, val)));
    } else if n == "targets"@ {
        assert(set_step(w0, n, val) == Ok::<StateView, Seq<char>>(step_view(w0, n, val)));
    } else if n == "intent"@ {
        assert(set_step(w0, n, val) == Ok::<StateView, Seq<char>>(step_view(w0, n, val)));
    } else if n == "behavior"@ {
        assert(set_step(w0, n, val) == Ok::<StateView, Seq<char>>(step_view(w0, n, val)));
    } else if n == "input"@ {
        assert(set_step(w0, n, val) == Ok::<StateView, Seq<char>>(step_view(w0, n, val)));
    } else if n == "expect"@ {
        assert(set_step(w0, n, val) == Ok::<StateView, Seq<char>>(step_view(w0, n, val)));
    } else if n == "kind"@ {
        assert(set_step(w0, n, val) == Ok::<StateView, Seq<char>>(step_view(w0, n, val)));
    } else if n == "test_kind"@ {
        assert(set_step(w0, n, val) == Ok::<StateView, Seq<char>>(step_view(w0, n, val)));
    } else if n == "case"@ {
        assert(set_step(w0, n, val) == Ok::<StateView, Seq<char>>(step_view(w0, n, val)));
    } else if n == "related"@ {
        assert(set_step(w0, n, val) == Ok::<StateView, Seq<char>>(step_view(w0, n, val)));
    } else if n == "fn_name"@ {
        assert(set_step(w0, n, val) == Ok::<StateView, Seq<char>>(step_view(w0, n, val)));
    }
}

/// `--set` values whose names may all be set are all applied: each field
/// holds what the last entry naming it gives (`covers`, `case`, `related`
/// and `targets` the value's strings, `target` its one text, `intent` and
/// `behavior` the intent, `input` and `expect` the text, `kind` the text
/// and `test_kind` the text after `unit-`, `fn_name` the text); a field no
/// entry names keeps its value; the id and the file never change.
pub proof fn lemma_sets_give_each_field_its_last_value(v: StateView, set: Seq<(String, FormValue)>)
    requires
        forall|i: int| 0 <= i < set.len() ==> allowed_names().contains(#[trigger] set[i].0@),
    ensures
        ({
            let (w, bad) = sets_applied(v, set);
            &&& bad is None
            &&& w.id == v.id
            &&& w.file == v.file
            &&& w.covers == match last_entry(set, set!["covers"@]) {
                Some(e) => value_texts(e.1),
                None => v.covers,
            }
            &&& w.targets == match last_entry(set, set!["target"@, "targets"@]) {
                Some(e) => if e.0 == "target"@ {
                    seq![value_text(e.1)]
                } else {
                    value_texts(e.1)
                },
                None => v.targets,
            }
            &&& w.intent == match last_entry(set, set!["intent"@, "behavior"@]) {
                Some(e) => value_text(e.1),
                None => v.intent,
            }
            &&& w.input == match last_entry(set, set!["input"@]) {
                Some(e) => Some(value_text(e.1)),
                None => v.input,
            }
            &&& w.expect == match last_entry(set, set!["expect"@]) {
                Some(e) => Some(value_text(e.1)),
                None => v.expect,
            }
            &&& w.kind == match last_entry(set, set!["kind"@, "test_kind"@]) {
                Some(e) => if e.0 == "kind"@ {
                    Some(value_text(e.1))
                } else {
                    Some("unit-"@ + value_text(e.1))
                },
                None => v.kind,
            }
            &&& w.cases == match last_entry(set, set!["case"@]) {
                Some(e) => value_texts(e.1),
                None => v.cases,
            }
            &&& w.related == match last_entry(set, set!["related"@]) {
                Some(e) => value_texts(e.1),
                None => v.related,
            }
            &&& w.fn_name == match last_entry(set, set!["fn_name"@]) {
                Some(e) => value_text(e.1),
                None => v.fn_name,
            }
        }),
    decreases set.len(),
{
    reveal_strlit("covers");
    reveal_strlit("target");
    reveal_strlit("targets");
    reveal_strlit("intent");
    reveal_strlit("behavior");
    reveal_strlit("input");
    reveal_strlit("expect");
    reveal_strlit("kind");
    reveal_strlit("test_kind");
    reveal_strlit("case");
    reveal_strlit("related");
    reveal_strlit("fn_name");
    lemma_field_names_differ();
    if set.len() > 0 {
        let d = set.drop_last();
        assert forall|i: int| 0 <= i < d.len() implies allowed_names().contains(#[trigger] d[i].0@) by {
            assert(d[i] == set[i]);
        }
        lemma_sets_give_each_field_its_last_value(v, d);
        assert(allowed_names().contains(set[set.len() - 1].0@));
        assert(set.last() == set[set.len() - 1]);
        let n = set.last().0@;
        let val = set.last().1;
        let w0 = sets_applied(v, d).0;
        lemma_set_step_fields(w0, n, val);
    }
}

/// `--set` values stop at the first entry whose name no field may be set
/// by, and the error names it.
pub proof fn lemma_sets_refuse_the_first_unknown_name(v: StateView, set: Seq<(String, FormValue)>, k: int)
    requires
        0 <= k < set.len(),
        !allowed_names().contains(set[k].0@),
        forall|i: int| 0 <= i < k ==> allowed_names().contains(#[trigger] set[i].0@),
    ensures
        sets_applied(v, set).1 == Some(set[k].0@),
    decreases set.len(),
{
    reveal_strlit("covers");
    reveal_strlit("target");
    reveal_strlit("targets");
    reveal_strlit("intent");
    reveal_strlit("behavior");
    reveal_strlit("input");
    reveal_strlit("expect");
    reveal_strlit("kind");
    reveal_strlit("test_kind");
    reveal_strlit("case");
    reveal_strlit("related");
    reveal_strlit("fn_name");
    lemma_field_names_differ();
    let d = set.drop_last();
    if k < set.len() - 1 {
        assert(d[k] == set[k]);
        assert forall|i: int| 0 <= i < k implies allowed_names().contains(#[trigger] d[i].0@) by {
            assert(d[i] == set[i]);
        }
        lemma_sets_refuse_the_first_unknown_name(v, d, k);
    } else {
        assert(d =~= set.take(k));
        assert forall|i: int| 0 <= i < d.len() implies allowed_names().contains(#[trigger] d[i].0@) by {
            assert(d[i] == set[i]);
        }
        lemma_sets_give_each_field_its_last_value(v, d);
        assert(set.last() == set[k]);
    }
}

} // verus!
