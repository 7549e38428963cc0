//! An owned JSON tree, and its mathematical view.
//!
//! The transcript wire format is JSON, so the decoder first reads the input
//! text into this tree and then maps the tree onto the typed transcript
//! model.  Numbers are kept only as exactly representable integers: a
//! syntactically valid JSON number with a fraction, an exponent, or a
//! magnitude outside `i64` is held as [`JsonValue::BigNum`], which no
//! transcript field accepts (the transcript model is integer-valued), and
//! which none of this library's encoders ever produces.

use vstd::prelude::*;

verus! {

/// An owned JSON value.
pub enum JsonValue {
    /// The literal `null`.
    Null,
    /// `true` or `false`.
    Bool(bool),
    /// A number that is exactly an `i64`.
    Int(i64),
    /// A syntactically valid number that is not exactly an `i64` (it has a
    /// fraction or an exponent, or overflows `i64`).  Carried only so that
    /// such a number in an ignored field does not fail the whole decode.
    BigNum,
    /// A string.
    Str(String),
    /// An array, in source order.
    Arr(Vec<JsonValue>),
    /// An object: its members as key/value pairs, in source order.
    /// Duplicate keys are representable; the transcript decoder rejects a
    /// duplicated known key and ignores unknown keys entirely.
    Obj(Vec<(String, JsonValue)>),
}

/// The mathematical shape of a [`JsonValue`].
pub enum JsonRep {
    Null,
    Bool(bool),
    Int(int),
    BigNum,
    Str(Seq<char>),
    Arr(Seq<JsonRep>),
    Obj(Seq<(Seq<char>, JsonRep)>),
}

/// The views of a sequence of JSON values.
pub open spec fn jsons_rep(s: Seq<JsonValue>) -> Seq<JsonRep>
    decreases s,
{
    if s.len() == 0 {
        Seq::empty()
    } else {
        jsons_rep(s.drop_last()).push(s.last()@)
    }
}

/// The views of an object's members.
pub open spec fn members_rep(s: Seq<(String, JsonValue)>) -> Seq<(Seq<char>, JsonRep)>
    decreases s,
{
    if s.len() == 0 {
        Seq::empty()
    } else {
        members_rep(s.drop_last()).push((s.last().0@, s.last().1@))
    }
}

impl View for JsonValue {
    type V = JsonRep;

    open spec fn view(&self) -> JsonRep
        decreases self,
    {
        match self {
            JsonValue::Null => JsonRep::Null,
            JsonValue::Bool(b) => JsonRep::Bool(*b),
            JsonValue::Int(n) => JsonRep::Int(*n as int),
            JsonValue::BigNum => JsonRep::BigNum,
            JsonValue::Str(s) => JsonRep::Str(s@),
            JsonValue::Arr(a) => JsonRep::Arr(jsons_rep(a@)),
            JsonValue::Obj(o) => JsonRep::Obj(members_rep(o@)),
        }
    }
}

/// `jsons_rep` is the element-wise view.
pub proof fn lemma_jsons_rep(s: Seq<JsonValue>)
    ensures
        jsons_rep(s).len() == s.len(),
        forall|i: int| 0 <= i < s.len() ==> jsons_rep(s)[i] == #[trigger] s[i]@,
    decreases s.len(),
{
    if s.len() > 0 {
        lemma_jsons_rep(s.drop_last());
        assert(jsons_rep(s) == jsons_rep(s.drop_last()).push(s.last()@));
        assert forall|i: int| 0 <= i < s.len() implies jsons_rep(s)[i] == #[trigger] s[i]@ by {
            if i < s.len() - 1 {
                assert(s.drop_last()[i] == s[i]);
            } else {
                assert(s[i] == s.last());
            }
        }
    }
}

/// `members_rep` is the element-wise view.
pub proof fn lemma_members_rep(s: Seq<(String, JsonValue)>)
    ensures
        members_rep(s).len() == s.len(),
        forall|i: int| 0 <= i < s.len() ==> members_rep(s)[i] == (#[trigger] s[i].0@, s[i].1@),
    decreases s.len(),
{
    if s.len() > 0 {
        lemma_members_rep(s.drop_last());
        assert(members_rep(s) == members_rep(s.drop_last()).push((s.last().0@, s.last().1@)));
        assert forall|i: int| 0 <= i < s.len() implies members_rep(s)[i] == (
        #[trigger] s[i].0@,
        s[i].1@,
        ) by {
            let w = members_rep(s.drop_last()).push((s.last().0@, s.last().1@));
            if i < s.len() - 1 {
                assert(s.drop_last()[i] == s[i]);
                assert(w[i] == members_rep(s.drop_last())[i]);
            } else {
                assert(s[i] == s.last());
                assert(w[i] == (s.last().0@, s.last().1@));
            }
        }
    }
}


/// Viewing commutes with appending an element.
pub proof fn lemma_jsons_rep_push(s: Seq<JsonValue>, e: JsonValue)
    ensures
        jsons_rep(s.push(e)) == jsons_rep(s).push(e@),
{
    assert(s.push(e).drop_last() =~= s);
    assert(s.push(e).last() == e);
}

/// Viewing commutes with appending a member.
pub proof fn lemma_members_rep_push(s: Seq<(String, JsonValue)>, e: (String, JsonValue))
    ensures
        members_rep(s.push(e)) == members_rep(s).push((e.0@, e.1@)),
{
    assert(s.push(e).drop_last() =~= s);
    assert(s.push(e).last() == e);
}


/// True of trees that hold no [`JsonRep::BigNum`]: every number in them is
/// an exactly representable `i64` integer.  Everything this library encodes
/// is number-free in this sense.
pub open spec fn num_free(v: JsonRep) -> bool
    decreases v,
{
    match v {
        JsonRep::BigNum => false,
        JsonRep::Arr(a) => nums_free(a),
        JsonRep::Obj(o) => members_num_free(o),
        _ => true,
    }
}

/// [`num_free`], over an array's elements.
pub open spec fn nums_free(a: Seq<JsonRep>) -> bool
    decreases a,
{
    if a.len() == 0 {
        true
    } else {
        nums_free(a.drop_last()) && num_free(a.last())
    }
}

/// [`num_free`], over an object's member values.
pub open spec fn members_num_free(o: Seq<(Seq<char>, JsonRep)>) -> bool
    decreases o,
{
    if o.len() == 0 {
        true
    } else {
        members_num_free(o.drop_last()) && num_free(o.last().1)
    }
}

/// Integers in the tree are in `i64` range.  Every view of a [`JsonValue`]
/// satisfies this; it matters for trees written down directly in proofs.
pub open spec fn ints_in_range(v: JsonRep) -> bool
    decreases v,
{
    match v {
        JsonRep::Int(n) => i64::MIN <= n <= i64::MAX,
        JsonRep::Arr(a) => arr_ints_in_range(a),
        JsonRep::Obj(o) => members_ints_in_range(o),
        _ => true,
    }
}

/// [`ints_in_range`], over an array's elements.
pub open spec fn arr_ints_in_range(a: Seq<JsonRep>) -> bool
    decreases a,
{
    if a.len() == 0 {
        true
    } else {
        arr_ints_in_range(a.drop_last()) && ints_in_range(a.last())
    }
}

/// [`ints_in_range`], over an object's member values.
pub open spec fn members_ints_in_range(o: Seq<(Seq<char>, JsonRep)>) -> bool
    decreases o,
{
    if o.len() == 0 {
        true
    } else {
        members_ints_in_range(o.drop_last()) && ints_in_range(o.last().1)
    }
}

/// The nesting depth of a tree: how many arrays or objects stand above its
/// deepest leaf, that one included.
pub open spec fn jdepth(v: JsonRep) -> nat
    decreases v,
{
    match v {
        JsonRep::Arr(a) => 1 + arr_jdepth(a),
        JsonRep::Obj(o) => 1 + members_jdepth(o),
        _ => 0,
    }
}

/// The greatest depth of an array's elements.
pub open spec fn arr_jdepth(a: Seq<JsonRep>) -> nat
    decreases a,
{
    if a.len() == 0 {
        0
    } else {
        vstd::math::max(arr_jdepth(a.drop_last()) as int, jdepth(a.last()) as int) as nat
    }
}

/// The greatest depth of an object's member values.
pub open spec fn members_jdepth(o: Seq<(Seq<char>, JsonRep)>) -> nat
    decreases o,
{
    if o.len() == 0 {
        0
    } else {
        vstd::math::max(members_jdepth(o.drop_last()) as int, jdepth(o.last().1) as int) as nat
    }
}


/// What an array's aggregate facts say of each element.
pub proof fn lemma_arr_elem(a: Seq<JsonRep>, j: int)
    requires
        0 <= j < a.len(),
    ensures
        nums_free(a) ==> num_free(a[j]),
        arr_ints_in_range(a) ==> ints_in_range(a[j]),
        jdepth(a[j]) <= arr_jdepth(a),
    decreases a.len(),
{
    if j < a.len() - 1 {
        assert(a.drop_last()[j] == a[j]);
        lemma_arr_elem(a.drop_last(), j);
    } else {
        assert(a[j] == a.last());
    }
}

/// What an object's aggregate facts say of each member's value.
pub proof fn lemma_member_elem(o: Seq<(Seq<char>, JsonRep)>, j: int)
    requires
        0 <= j < o.len(),
    ensures
        members_num_free(o) ==> num_free(o[j].1),
        members_ints_in_range(o) ==> ints_in_range(o[j].1),
        jdepth(o[j].1) <= members_jdepth(o),
    decreases o.len(),
{
    if j < o.len() - 1 {
        assert(o.drop_last()[j] == o[j]);
        lemma_member_elem(o.drop_last(), j);
    } else {
        assert(o[j] == o.last());
    }
}


/// Element-wise facts give an array's aggregate facts.
pub proof fn lemma_arr_agg(a: Seq<JsonRep>, d: nat)
    requires
        forall|j: int| 0 <= j < a.len() ==> num_free(#[trigger] a[j]),
        forall|j: int| 0 <= j < a.len() ==> ints_in_range(#[trigger] a[j]),
        forall|j: int| 0 <= j < a.len() ==> jdepth(#[trigger] a[j]) <= d,
    ensures
        nums_free(a),
        arr_ints_in_range(a),
        arr_jdepth(a) <= d,
    decreases a.len(),
{
    if a.len() > 0 {
        assert forall|j: int| 0 <= j < a.drop_last().len() implies num_free(
            #[trigger] a.drop_last()[j],
        ) && ints_in_range(a.drop_last()[j]) && jdepth(a.drop_last()[j]) <= d by {
            assert(a.drop_last()[j] == a[j]);
        }
        lemma_arr_agg(a.drop_last(), d);
        assert(a.last() == a[a.len() - 1]);
    }
}

/// Element-wise facts give an object's aggregate facts.
pub proof fn lemma_members_agg(o: Seq<(Seq<char>, JsonRep)>, d: nat)
    requires
        forall|j: int| 0 <= j < o.len() ==> num_free((#[trigger] o[j]).1),
        forall|j: int| 0 <= j < o.len() ==> ints_in_range((#[trigger] o[j]).1),
        forall|j: int| 0 <= j < o.len() ==> jdepth((#[trigger] o[j]).1) <= d,
    ensures
        members_num_free(o),
        members_ints_in_range(o),
        members_jdepth(o) <= d,
    decreases o.len(),
{
    if o.len() > 0 {
        assert forall|j: int| 0 <= j < o.drop_last().len() implies num_free(
            (#[trigger] o.drop_last()[j]).1,
        ) && ints_in_range(o.drop_last()[j].1) && jdepth(o.drop_last()[j].1) <= d by {
            assert(o.drop_last()[j] == o[j]);
        }
        lemma_members_agg(o.drop_last(), d);
        assert(o.last() == o[o.len() - 1]);
    }
}

} // verus!
