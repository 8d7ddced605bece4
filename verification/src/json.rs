//! JSON value model.
//!
//! Numbers are carried as their wire lexeme, so a value round-trips through
//! the codec without loss and without floating point.

use vstd::prelude::*;

verus! {

/// One key/value member of a JSON object.
#[derive(Debug)]
pub struct JsonField {
    pub key: String,
    pub value: Json,
}

/// A JSON value. The `Num` variant holds the number's wire lexeme.
#[derive(Debug)]
pub enum Json {
    Null,
    Bool(bool),
    Num(String),
    Str(String),
    Arr(Vec<Json>),
    Obj(Vec<JsonField>),
}

/// Mathematical model of a JSON value.
pub enum JsonV {
    Null,
    Bool(bool),
    Num(Seq<char>),
    Str(Seq<char>),
    Arr(Seq<JsonV>),
    Obj(Seq<(Seq<char>, JsonV)>),
}

impl View for Json {
    type V = JsonV;

    open spec fn view(&self) -> JsonV
        decreases self,
    {
        match self {
            Json::Null => JsonV::Null,
            Json::Bool(b) => JsonV::Bool(*b),
            Json::Num(s) => JsonV::Num(s@),
            Json::Str(s) => JsonV::Str(s@),
            Json::Arr(items) => JsonV::Arr(view_arr(items@)),
            Json::Obj(pairs) => JsonV::Obj(view_obj(pairs@)),
        }
    }
}

impl DeepView for Json {
    type V = JsonV;

    open spec fn deep_view(&self) -> JsonV {
        self@
    }
}

/// The views of a sequence of JSON values, element by element.
pub open spec fn view_arr(items: Seq<Json>) -> Seq<JsonV>
    decreases items,
{
    if items.len() == 0 {
        Seq::empty()
    } else {
        view_arr(items.drop_last()).push(items.last()@)
    }
}

/// The views of a sequence of object members, member by member.
pub open spec fn view_obj(pairs: Seq<JsonField>) -> Seq<(Seq<char>, JsonV)>
    decreases pairs,
{
    if pairs.len() == 0 {
        Seq::empty()
    } else {
        view_obj(pairs.drop_last()).push((pairs.last().key@, pairs.last().value@))
    }
}

/// `view_arr` maps the sequence index by index.
pub proof fn lemma_view_arr(items: Seq<Json>)
    ensures
        view_arr(items).len() == items.len(),
        forall|i: int| 0 <= i < items.len() ==> #[trigger] view_arr(items)[i] == items[i]@,
    decreases items.len(),
{
    if items.len() > 0 {
        lemma_view_arr(items.drop_last());
        assert(view_arr(items) == view_arr(items.drop_last()).push(items.last()@));
        assert forall|i: int| 0 <= i < items.len() implies #[trigger] view_arr(items)[i]
            == items[i]@ by {
            if i < items.len() - 1 {
                assert(items.drop_last()[i] == items[i]);
            } else {
                assert(items.last() == items[i]);
            }
        }
    }
}

/// `view_obj` maps the sequence index by index.
pub proof fn lemma_view_obj(pairs: Seq<JsonField>)
    ensures
        view_obj(pairs).len() == pairs.len(),
        forall|i: int| 0 <= i < pairs.len() ==> #[trigger] view_obj(pairs)[i] == (
        pairs[i].key@,
        pairs[i].value@,
        ),
    decreases pairs.len(),
{
    if pairs.len() > 0 {
        lemma_view_obj(pairs.drop_last());
        assert(view_obj(pairs) == view_obj(pairs.drop_last()).push(
            (pairs.last().key@, pairs.last().value@),
        ));
        assert forall|i: int| 0 <= i < pairs.len() implies #[trigger] view_obj(pairs)[i] == (
        pairs[i].key@,
        pairs[i].value@,
        ) by {
            if i < pairs.len() - 1 {
                assert(pairs.drop_last()[i] == pairs[i]);
            } else {
                assert(pairs.last() == pairs[i]);
            }
        }
    }
}


/// First value bound to `key` among object members, if any.
pub open spec fn spec_lookup(pairs: Seq<(Seq<char>, JsonV)>, key: Seq<char>) -> Option<JsonV>
    decreases pairs.len(),
{
    if pairs.len() == 0 {
        None
    } else if pairs[0].0 == key {
        Some(pairs[0].1)
    } else {
        spec_lookup(pairs.drop_first(), key)
    }
}


/// If index `i` holds the first member named `key`, the lookup returns its value.
pub proof fn lemma_lookup_at(pairs: Seq<(Seq<char>, JsonV)>, key: Seq<char>, i: int)
    requires
        0 <= i < pairs.len(),
        pairs[i].0 == key,
        forall|k: int| 0 <= k < i ==> (#[trigger] pairs[k]).0 != key,
    ensures
        spec_lookup(pairs, key) == Some(pairs[i].1),
    decreases i,
{
    if i > 0 {
        lemma_lookup_at(pairs.drop_first(), key, i - 1);
    }
}

/// If no member is named `key`, the lookup returns nothing.
pub proof fn lemma_lookup_none(pairs: Seq<(Seq<char>, JsonV)>, key: Seq<char>)
    requires
        forall|k: int| 0 <= k < pairs.len() ==> (#[trigger] pairs[k]).0 != key,
    ensures
        spec_lookup(pairs, key) is None,
    decreases pairs.len(),
{
    if pairs.len() > 0 {
        lemma_lookup_none(pairs.drop_first(), key);
    }
}

impl Json {
    /// A structurally equal copy of this value.
    #[verifier::loop_isolation(false)]
    pub fn duplicate(&self) -> (r: Json)
        ensures
            r@ == self@,
        decreases self,
    {
        match self {
            Json::Null => Json::Null,
            Json::Bool(b) => Json::Bool(*b),
            Json::Num(s) => Json::Num(s.clone()),
            Json::Str(s) => Json::Str(s.clone()),
            Json::Arr(items) => {
                let mut out: Vec<Json> = Vec::new();
                let mut i: usize = 0;
                while i < items.len()
                    invariant
                        0 <= i <= items.len(),
                        out@.len() == i,
                        forall|k: int| 0 <= k < i ==> out@[k]@ == #[trigger] items@[k]@,
                    decreases items.len() - i,
                {
                    proof {
                        assert(decreases_to!(*self => self->Arr_0));
                        assert(decreases_to!(*items => items@));
                        assert(decreases_to!(items@ => items@[i as int]));
                        assert(decreases_to!(*self => items@[i as int]));
                    }
                    out.push(items[i].duplicate());
                    i = i + 1;
                }
                proof {
                    lemma_view_arr(out@);
                    lemma_view_arr(items@);
                    assert(view_arr(out@) =~= view_arr(items@));
                }
                Json::Arr(out)
            },
            Json::Obj(pairs) => {
                let mut out: Vec<JsonField> = Vec::new();
                let mut i: usize = 0;
                while i < pairs.len()
                    invariant
                        0 <= i <= pairs.len(),
                        out@.len() == i,
                        forall|k: int| 0 <= k < i ==> out@[k].key@ == #[trigger] pairs@[k].key@
                            && out@[k].value@ == pairs@[k].value@,
                    decreases pairs.len() - i,
                {
                    let f = &pairs[i];
                    proof {
                        assert(decreases_to!(*self => self->Obj_0));
                        assert(decreases_to!(*pairs => pairs@));
                        assert(decreases_to!(pairs@ => pairs@[i as int]));
                        assert(decreases_to!(pairs@[i as int] => pairs@[i as int].value));
                        assert(decreases_to!(*self => pairs@[i as int].value));
                    }
                    out.push(JsonField { key: f.key.clone(), value: f.value.duplicate() });
                    i = i + 1;
                }
                proof {
                    lemma_view_obj(out@);
                    lemma_view_obj(pairs@);
                    assert(view_obj(out@) =~= view_obj(pairs@));
                }
                Json::Obj(out)
            },
        }
    }

    /// Look up the first member named `key` in an object's member list.
    pub fn lookup<'a>(fields: &'a Vec<JsonField>, key: &str) -> (r: Option<&'a Json>)
        ensures
            match r {
                Some(v) => spec_lookup(view_obj(fields@), key@) == Some(v@),
                None => spec_lookup(view_obj(fields@), key@) is None,
            },
    {
        let ghost pairs = view_obj(fields@);
        proof {
            lemma_view_obj(fields@);
        }
        let mut i: usize = 0;
        proof {
            assert(pairs.skip(0) =~= pairs);
        }
        while i < fields.len()
            invariant
                0 <= i <= fields.len(),
                pairs == view_obj(fields@),
                pairs.len() == fields@.len(),
                forall|k: int| 0 <= k < pairs.len() ==> #[trigger] pairs[k] == (
                fields@[k].key@,
                fields@[k].value@,
                ),
                spec_lookup(pairs, key@) == spec_lookup(pairs.skip(i as int), key@),
            decreases fields.len() - i,
        {
            if crate::strutil::eq_str(fields[i].key.as_str(), key) {
                proof {
                    assert(pairs.skip(i as int)[0] == pairs[i as int]);
                }
                return Some(&fields[i].value);
            }
            proof {
                assert(pairs.skip(i as int)[0] == pairs[i as int]);
                assert(pairs.skip(i as int).drop_first() =~= pairs.skip(i as int + 1));
            }
            i = i + 1;
        }
        proof {
            assert(pairs.skip(i as int).len() == 0);
        }
        None
    }
}

} // verus!
