//! Field lookup in a decoded JSON object.
//!
//! The wire format's objects are decoded with these rules: a known key must
//! occur at most once (a duplicate is a data violation), unknown keys are
//! ignored entirely, a required field must be present with the expected
//! type, and an optional field may be absent or `null` (both mean unset).

use vstd::prelude::*;

use crate::chars::str_eq;
use crate::error::{JsonError, JsonErrorKind};
use crate::json::{members_rep, JsonRep, JsonValue};

verus! {

/// How many members of `o` have the key `k`.
pub open spec fn obj_count(o: Seq<(Seq<char>, JsonRep)>, k: Seq<char>) -> nat
    decreases o.len(),
{
    if o.len() == 0 {
        0
    } else {
        obj_count(o.drop_last(), k) + if o.last().0 == k {
            1nat
        } else {
            0nat
        }
    }
}

/// The value of the first member of `o` with the key `k`, if any.
pub open spec fn obj_first(o: Seq<(Seq<char>, JsonRep)>, k: Seq<char>) -> Option<JsonRep>
    decreases o.len(),
{
    if o.len() == 0 {
        None
    } else if obj_first(o.drop_last(), k) is Some {
        obj_first(o.drop_last(), k)
    } else if o.last().0 == k {
        Some(o.last().1)
    } else {
        None
    }
}

/// `k` occurs exactly once in `o`, with a string value.
pub open spec fn str_field_ok(o: Seq<(Seq<char>, JsonRep)>, k: Seq<char>) -> bool {
    obj_count(o, k) == 1 && obj_first(o, k)->0 is Str
}

/// The string value of the field `k`.
pub open spec fn str_field(o: Seq<(Seq<char>, JsonRep)>, k: Seq<char>) -> Seq<char> {
    obj_first(o, k)->0->Str_0
}

/// `k` occurs exactly once in `o`, with an integer value.
pub open spec fn int_field_ok(o: Seq<(Seq<char>, JsonRep)>, k: Seq<char>) -> bool {
    obj_count(o, k) == 1 && obj_first(o, k)->0 is Int
}

/// The integer value of the field `k`.
pub open spec fn int_field(o: Seq<(Seq<char>, JsonRep)>, k: Seq<char>) -> int {
    obj_first(o, k)->0->Int_0
}

/// `k` occurs at most once in `o`, and if present its value is an integer or
/// `null`.
pub open spec fn opt_int_field_ok(o: Seq<(Seq<char>, JsonRep)>, k: Seq<char>) -> bool {
    obj_count(o, k) <= 1 && (obj_count(o, k) == 1 ==> (obj_first(o, k)->0 is Int || obj_first(
        o,
        k,
    )->0 is Null))
}

/// The value of the optional integer field `k`; absent and `null` both mean
/// unset.
pub open spec fn opt_int_field(o: Seq<(Seq<char>, JsonRep)>, k: Seq<char>) -> Option<int> {
    if obj_count(o, k) == 1 && obj_first(o, k)->0 is Int {
        Some(obj_first(o, k)->0->Int_0)
    } else {
        None
    }
}

/// `k` occurs exactly once in `o`, with an array value.
pub open spec fn arr_field_ok(o: Seq<(Seq<char>, JsonRep)>, k: Seq<char>) -> bool {
    obj_count(o, k) == 1 && obj_first(o, k)->0 is Arr
}

/// The elements of the array field `k`.
pub open spec fn arr_field(o: Seq<(Seq<char>, JsonRep)>, k: Seq<char>) -> Seq<JsonRep> {
    obj_first(o, k)->0->Arr_0
}

/// `k` occurs at most once in `o`, and if present its value is an array or
/// `null`.
pub open spec fn opt_arr_field_ok(o: Seq<(Seq<char>, JsonRep)>, k: Seq<char>) -> bool {
    obj_count(o, k) <= 1 && (obj_count(o, k) == 1 ==> (obj_first(o, k)->0 is Arr || obj_first(
        o,
        k,
    )->0 is Null))
}

/// The elements of the optional array field `k`; absent and `null` both mean
/// no array at all (which is distinct from an empty array).
pub open spec fn opt_arr_field(o: Seq<(Seq<char>, JsonRep)>, k: Seq<char>) -> Option<Seq<JsonRep>> {
    if obj_count(o, k) == 1 && obj_first(o, k)->0 is Arr {
        Some(obj_first(o, k)->0->Arr_0)
    } else {
        None
    }
}

/// A key is absent exactly when it has no first occurrence.
pub proof fn lemma_obj_first_none(o: Seq<(Seq<char>, JsonRep)>, k: Seq<char>)
    ensures
        (obj_count(o, k) == 0) <==> (obj_first(o, k) is None),
    decreases o.len(),
{
    if o.len() > 0 {
        lemma_obj_first_none(o.drop_last(), k);
    }
}

/// A key occurs in a prefix at most as often as in the whole member list.
proof fn lemma_obj_count_take_le(o: Seq<(String, JsonValue)>, k: Seq<char>, m: int)
    requires
        0 <= m <= o.len(),
    ensures
        obj_count(members_rep(o.take(m)), k) <= obj_count(members_rep(o), k),
    decreases o.len() - m,
{
    if m < o.len() {
        assert(o.take(m + 1).drop_last() =~= o.take(m));
        assert(o.take(m + 1).last() == o[m]);
        assert(members_rep(o.take(m + 1)) == members_rep(o.take(m)).push((o[m].0@, o[m].1@)));
        assert(members_rep(o.take(m)).push((o[m].0@, o[m].1@)).drop_last() =~= members_rep(
            o.take(m),
        ));
        lemma_obj_count_take_le(o, k, m + 1);
    } else {
        assert(o.take(m) == o);
    }
}

/// A data-violation error value.
pub(crate) fn data_err() -> (r: JsonError)
    ensures
        r.kind is Data,
        r.pos == 0,
{
    JsonError { kind: JsonErrorKind::Data, pos: 0 }
}

/// Looks the key `k` up in the members `o`: `Ok(Some(..))` the unique match,
/// `Ok(None)` no match, `Err(..)` a duplicated key.
pub(crate) fn get_field<'a>(o: &'a Vec<(String, JsonValue)>, k: &str) -> (r: Result<
    Option<&'a JsonValue>,
    JsonError,
>)
    ensures
        match r {
            Ok(f) => match f {
                Some(v) => obj_count(members_rep(o@), k@) == 1 && obj_first(members_rep(o@), k@)
                    == Some(v@),
                None => obj_count(members_rep(o@), k@) == 0,
            },
            Err(e) => obj_count(members_rep(o@), k@) >= 2 && e.kind is Data,
        },
{
    let n = o.len();
    let mut found: Option<usize> = None;
    let mut i: usize = 0;
    while i < n
        invariant
            i <= n,
            n == o@.len(),
            match found {
                Some(j) => j < i && obj_count(members_rep(o@.take(i as int)), k@) == 1 && obj_first(
                    members_rep(o@.take(i as int)),
                    k@,
                ) == Some(o@[j as int].1@),
                None => obj_count(members_rep(o@.take(i as int)), k@) == 0,
            },
        decreases n - i,
    {
        proof {
            assert(o@.take(i + 1int).drop_last() =~= o@.take(i as int));
            assert(o@.take(i + 1int).last() == o@[i as int]);
            assert(members_rep(o@.take(i + 1int)) == members_rep(o@.take(i as int)).push(
                (o@[i as int].0@, o@[i as int].1@),
            ));
            assert(members_rep(o@.take(i as int)).push(
                (o@[i as int].0@, o@[i as int].1@),
            ).drop_last() =~= members_rep(o@.take(i as int)));
            lemma_obj_first_none(members_rep(o@.take(i as int)), k@);
        }
        if str_eq(o[i].0.as_str(), k) {
            match found {
                Some(_) => {
                    proof {
                        lemma_obj_count_take_le(o@, k@, i + 1int);
                    }
                    return Err(data_err());
                },
                None => {
                    found = Some(i);
                },
            }
        }
        i = i + 1;
    }
    proof {
        assert(o@.take(n as int) == o@);
    }
    match found {
        Some(j) => Ok(Some(&o[j].1)),
        None => Ok(None),
    }
}


/// A key that no member has is counted zero times.
pub proof fn lemma_obj_absent(o: Seq<(Seq<char>, JsonRep)>, k: Seq<char>)
    requires
        forall|j: int| 0 <= j < o.len() ==> (#[trigger] o[j]).0 != k,
    ensures
        obj_count(o, k) == 0,
        obj_first(o, k) is None,
    decreases o.len(),
{
    if o.len() > 0 {
        assert forall|j: int| 0 <= j < o.drop_last().len() implies (#[trigger] o.drop_last()[j]).0
            != k by {
            assert(o.drop_last()[j] == o[j]);
        }
        lemma_obj_absent(o.drop_last(), k);
        assert(o.last() == o[o.len() - 1]);
    }
}

/// A key that exactly one member has is counted once, and looking it up
/// yields that member's value.
pub proof fn lemma_obj_unique(o: Seq<(Seq<char>, JsonRep)>, k: Seq<char>, i: int)
    requires
        0 <= i < o.len(),
        o[i].0 == k,
        forall|j: int| 0 <= j < o.len() && j != i ==> (#[trigger] o[j]).0 != k,
    ensures
        obj_count(o, k) == 1,
        obj_first(o, k) == Some(o[i].1),
    decreases o.len(),
{
    if i < o.len() - 1 {
        assert(o.drop_last()[i] == o[i]);
        assert forall|j: int| 0 <= j < o.drop_last().len() && j != i implies (#[trigger] o.drop_last()[j]).0
            != k by {
            assert(o.drop_last()[j] == o[j]);
        }
        lemma_obj_unique(o.drop_last(), k, i);
        assert(o.last() == o[o.len() - 1]);
    } else {
        assert forall|j: int| 0 <= j < o.drop_last().len() implies (#[trigger] o.drop_last()[j]).0
            != k by {
            assert(o.drop_last()[j] == o[j]);
        }
        lemma_obj_absent(o.drop_last(), k);
        assert(o.last() == o[i]);
    }
}

} // verus!
