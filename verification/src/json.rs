use vstd::prelude::*;
use vstd::string::*;

use crate::text::{split_on, split_text};

verus! {

/// A JSON document, as the services read and write it.
///
/// An object keeps its entries in the order in which they were read; the
/// documents that this library receives are in key order, as serde_json keeps
/// them, so two equal documents have equal entry lists.
#[derive(Debug)]
pub enum JsonValue {
    Null,
    Bool(bool),
    /// A number, kept as its textual representation.
    Number(String),
    Str(String),
    Array(Vec<JsonValue>),
    Object(Vec<(String, JsonValue)>),
}

/// The mathematical model of a JSON document.
pub enum JsonView {
    Null,
    Bool(bool),
    Number(Seq<char>),
    Str(Seq<char>),
    Array(Seq<JsonView>),
    Object(Seq<(Seq<char>, JsonView)>),
}

pub open spec fn json_view(v: JsonValue) -> JsonView
    decreases v, 1nat,
{
    match v {
        JsonValue::Null => JsonView::Null,
        JsonValue::Bool(b) => JsonView::Bool(b),
        JsonValue::Number(n) => JsonView::Number(n@),
        JsonValue::Str(s) => JsonView::Str(s@),
        JsonValue::Array(items) => JsonView::Array(json_views(items@)),
        JsonValue::Object(entries) => JsonView::Object(json_entry_views(entries@)),
    }
}

pub open spec fn json_views(s: Seq<JsonValue>) -> Seq<JsonView>
    decreases s, 0nat,
{
    if s.len() == 0 {
        Seq::empty()
    } else {
        seq![json_view(s[0])] + json_views(s.drop_first())
    }
}

pub open spec fn json_entry_views(s: Seq<(String, JsonValue)>) -> Seq<(Seq<char>, JsonView)>
    decreases s, 0nat,
{
    if s.len() == 0 {
        Seq::empty()
    } else {
        seq![(s[0].0@, json_view(s[0].1))] + json_entry_views(s.drop_first())
    }
}

impl View for JsonValue {
    type V = JsonView;

    open spec fn view(&self) -> JsonView {
        json_view(*self)
    }
}

pub proof fn lemma_json_views(s: Seq<JsonValue>)
    ensures
        json_views(s).len() == s.len(),
        forall|i: int| 0 <= i < s.len() ==> #[trigger] json_views(s)[i] == json_view(s[i]),
    decreases s.len(),
{
    if s.len() > 0 {
        lemma_json_views(s.drop_first());
        assert forall|i: int| 0 <= i < s.len() implies #[trigger] json_views(s)[i] == json_view(
            s[i],
        ) by {
            if i > 0 {
                assert(s.drop_first()[i - 1] == s[i]);
            }
        }
    }
}

pub proof fn lemma_json_entry_views(s: Seq<(String, JsonValue)>)
    ensures
        json_entry_views(s).len() == s.len(),
        forall|i: int|
            0 <= i < s.len() ==> #[trigger] json_entry_views(s)[i] == (s[i].0@, json_view(s[i].1)),
    decreases s.len(),
{
    if s.len() > 0 {
        lemma_json_entry_views(s.drop_first());
        assert forall|i: int| 0 <= i < s.len() implies #[trigger] json_entry_views(s)[i] == (
            s[i].0@,
            json_view(s[i].1),
        ) by {
            if i > 0 {
                assert(s.drop_first()[i - 1] == s[i]);
            }
        }
    }
}

/// Decides whether two documents are equal.
#[verifier::loop_isolation(false)]
pub fn json_eq(a: &JsonValue, b: &JsonValue) -> (r: bool)
    ensures
        r == (a@ == b@),
    decreases a,
{
    match (a, b) {
        (JsonValue::Null, JsonValue::Null) => true,
        (JsonValue::Bool(x), JsonValue::Bool(y)) => *x == *y,
        (JsonValue::Number(x), JsonValue::Number(y)) => *x == *y,
        (JsonValue::Str(x), JsonValue::Str(y)) => *x == *y,
        (JsonValue::Array(xs), JsonValue::Array(ys)) => {
            proof {
                lemma_json_views(xs@);
                lemma_json_views(ys@);
            }
            if xs.len() != ys.len() {
                return false;
            }
            let mut i: usize = 0;
            while i < xs.len()
                invariant
                    xs.len() == ys.len(),
                    i <= xs.len(),
                    json_views(xs@).len() == xs.len(),
                    json_views(ys@).len() == ys.len(),
                    forall|j: int| 0 <= j < xs.len() ==> #[trigger] json_views(xs@)[j] == json_view(xs@[j]),
                    forall|j: int| 0 <= j < ys.len() ==> #[trigger] json_views(ys@)[j] == json_view(ys@[j]),
                    forall|j: int| 0 <= j < i ==> json_views(xs@)[j] == json_views(ys@)[j],
                decreases xs.len() - i,
            {
                proof {
                    assert(decreases_to!(a => xs));
                    vstd::std_specs::vec::axiom_vec_index_decreases(*xs, i as int);
                }
                if !json_eq(&xs[i], &ys[i]) {
                    assert(json_views(xs@)[i as int] != json_views(ys@)[i as int]);
                    return false;
                }
                i = i + 1;
            }
            assert(json_views(xs@) =~= json_views(ys@));
            true
        },
        (JsonValue::Object(xs), JsonValue::Object(ys)) => {
            proof {
                lemma_json_entry_views(xs@);
                lemma_json_entry_views(ys@);
            }
            if xs.len() != ys.len() {
                return false;
            }
            let mut i: usize = 0;
            while i < xs.len()
                invariant
                    xs.len() == ys.len(),
                    i <= xs.len(),
                    json_entry_views(xs@).len() == xs.len(),
                    json_entry_views(ys@).len() == ys.len(),
                    forall|j: int|
                        0 <= j < xs.len() ==> #[trigger] json_entry_views(xs@)[j] == (
                            xs@[j].0@,
                            json_view(xs@[j].1),
                        ),
                    forall|j: int|
                        0 <= j < ys.len() ==> #[trigger] json_entry_views(ys@)[j] == (
                            ys@[j].0@,
                            json_view(ys@[j].1),
                        ),
                    forall|j: int| 0 <= j < i ==> json_entry_views(xs@)[j] == json_entry_views(ys@)[j],
                decreases xs.len() - i,
            {
                let (kx, vx) = &xs[i];
                let (ky, vy) = &ys[i];
                if *kx != *ky {
                    assert(json_entry_views(xs@)[i as int] != json_entry_views(ys@)[i as int]);
                    return false;
                }
                proof {
                    assert(decreases_to!(a => xs));
                    vstd::std_specs::vec::axiom_vec_index_decreases(*xs, i as int);
                    assert(decreases_to!(xs@[i as int] => xs@[i as int].1));
                }
                if !json_eq(vx, vy) {
                    assert(json_entry_views(xs@)[i as int] != json_entry_views(ys@)[i as int]);
                    return false;
                }
                i = i + 1;
            }
            assert(json_entry_views(xs@) =~= json_entry_views(ys@));
            true
        },
        _ => false,
    }
}

impl JsonValue {
    /// A copy of the document.
    #[verifier::loop_isolation(false)]
    pub fn duplicate(&self) -> (r: JsonValue)
        ensures
            r@ == self@,
        decreases self,
    {
        match self {
            JsonValue::Null => JsonValue::Null,
            JsonValue::Bool(b) => JsonValue::Bool(*b),
            JsonValue::Number(n) => JsonValue::Number(n.clone()),
            JsonValue::Str(s) => JsonValue::Str(s.clone()),
            JsonValue::Array(xs) => {
                let mut out: Vec<JsonValue> = Vec::new();
                let mut i: usize = 0;
                proof {
                    lemma_json_views(xs@);
                }
                while i < xs.len()
                    invariant
                        i <= xs.len(),
                        out.len() == i,
                        forall|j: int| 0 <= j < i ==> json_view(#[trigger] out@[j]) == json_view(xs@[j]),
                    decreases xs.len() - i,
                {
                    proof {
                        assert(decreases_to!(self => xs));
                        vstd::std_specs::vec::axiom_vec_index_decreases(*xs, i as int);
                    }
                    let c = xs[i].duplicate();
                    out.push(c);
                    i = i + 1;
                }
                proof {
                    lemma_json_views(out@);
                    assert(json_views(out@) =~= json_views(xs@));
                }
                JsonValue::Array(out)
            },
            JsonValue::Object(xs) => {
                let mut out: Vec<(String, JsonValue)> = Vec::new();
                let mut i: usize = 0;
                proof {
                    lemma_json_entry_views(xs@);
                }
                while i < xs.len()
                    invariant
                        i <= xs.len(),
                        out.len() == i,
                        forall|j: int|
                            0 <= j < i ==> (#[trigger] out@[j]).0@ == xs@[j].0@ && json_view(out@[j].1)
                                == json_view(xs@[j].1),
                    decreases xs.len() - i,
                {
                    proof {
                        assert(decreases_to!(self => xs));
                        vstd::std_specs::vec::axiom_vec_index_decreases(*xs, i as int);
                        assert(decreases_to!(xs@[i as int] => xs@[i as int].1));
                    }
                    let (k, v) = &xs[i];
                    let c = v.duplicate();
                    out.push((k.clone(), c));
                    i = i + 1;
                }
                proof {
                    lemma_json_entry_views(out@);
                    assert(json_entry_views(out@) =~= json_entry_views(xs@));
                }
                JsonValue::Object(out)
            },
        }
    }
}

/// The value of the first entry with the given key.
pub open spec fn entries_get(entries: Seq<(Seq<char>, JsonView)>, key: Seq<char>) -> Option<
    JsonView,
>
    decreases entries.len(),
{
    if entries.len() == 0 {
        None
    } else if entries[0].0 == key {
        Some(entries[0].1)
    } else {
        entries_get(entries.drop_first(), key)
    }
}

/// Looks up the first entry with the given key.
pub fn object_get<'a>(entries: &'a Vec<(String, JsonValue)>, key: &String) -> (r: Option<&'a JsonValue>)
    ensures
        match r {
            Some(v) => entries_get(json_entry_views(entries@), key@) == Some(v@),
            None => entries_get(json_entry_views(entries@), key@) is None,
        },
{
    let mut i: usize = 0;
    proof {
        lemma_json_entry_views(entries@);
        assert(json_entry_views(entries@).skip(0) =~= json_entry_views(entries@));
    }
    while i < entries.len()
        invariant
            i <= entries.len(),
            json_entry_views(entries@).len() == entries.len(),
            forall|j: int|
                0 <= j < entries.len() ==> #[trigger] json_entry_views(entries@)[j] == (
                    entries@[j].0@,
                    json_view(entries@[j].1),
                ),
            entries_get(json_entry_views(entries@), key@) == entries_get(
                json_entry_views(entries@).skip(i as int),
                key@,
            ),
        decreases entries.len() - i,
    {
        let ghost rest = json_entry_views(entries@).skip(i as int);
        assert(rest.drop_first() =~= json_entry_views(entries@).skip(i + 1));
        if entries[i].0 == *key {
            return Some(&entries[i].1);
        }
        i = i + 1;
    }
    None
}

/// The segments of a path cut at each `.`, as `str::split('.')` gives them.
pub open spec fn split_dots(p: Seq<char>) -> Seq<Seq<char>> {
    split_on(p, '.')
}

/// Why a path into a document could not be followed.
#[derive(Debug)]
pub enum PathError {
    /// The value reached before this segment is not an object.
    NotAnObject(String),
    /// The object reached has no field with this name.
    MissingField(String),
}

pub enum PathErrorView {
    NotAnObject(Seq<char>),
    MissingField(Seq<char>),
}

impl View for PathError {
    type V = PathErrorView;

    open spec fn view(&self) -> PathErrorView {
        match self {
            PathError::NotAnObject(s) => PathErrorView::NotAnObject(s@),
            PathError::MissingField(s) => PathErrorView::MissingField(s@),
        }
    }
}

/// The value that a path of field names leads to inside a document.
pub open spec fn sub_object(v: JsonView, path: Seq<Seq<char>>) -> Result<JsonView, PathErrorView>
    decreases path.len(),
{
    if path.len() == 0 {
        Ok(v)
    } else {
        match v {
            JsonView::Object(entries) => match entries_get(entries, path[0]) {
                Some(next) => sub_object(next, path.drop_first()),
                None => Err(PathErrorView::MissingField(path[0])),
            },
            _ => Err(PathErrorView::NotAnObject(path[0])),
        }
    }
}

/// Follows a dotted path of field names (`"a.b"`) inside a document.
pub fn get_sub_object(value: &JsonValue, path: &str) -> (r: Result<JsonValue, PathError>)
    ensures
        match r {
            Ok(x) => sub_object(value@, split_dots(path@)) == Ok::<JsonView, PathErrorView>(x@),
            Err(e) => sub_object(value@, split_dots(path@)) == Err::<JsonView, PathErrorView>(e@),
        },
{
    let segments = split_text(path, '.');
    let ghost segs = segments@.map_values(|s: String| s@);
    let mut current: &JsonValue = value;
    let mut k: usize = 0;
    assert(segs.skip(0) =~= segs);
    while k < segments.len()
        invariant
            k <= segments.len(),
            segs == segments@.map_values(|s: String| s@),
            segs == split_dots(path@),
            sub_object(value@, segs) == sub_object(current@, segs.skip(k as int)),
        decreases segments.len() - k,
    {
        let ghost rest = segs.skip(k as int);
        assert(rest[0] == segments@[k as int]@);
        assert(rest.drop_first() =~= segs.skip(k + 1));
        match current {
            JsonValue::Object(entries) => {
                proof {
                    lemma_json_entry_views(entries@);
                }
                match object_get(entries, &segments[k]) {
                    Some(next) => {
                        current = next;
                    },
                    None => {
                        return Err(PathError::MissingField(segments[k].clone()));
                    },
                }
            },
            _ => {
                return Err(PathError::NotAnObject(segments[k].clone()));
            },
        }
        k = k + 1;
    }
    assert(segs.skip(k as int) =~= Seq::<Seq<char>>::empty());
    Ok(current.duplicate())
}

} // verus!
