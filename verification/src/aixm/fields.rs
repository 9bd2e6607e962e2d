//! A feature's leaf values: field → text, the first value recorded for a
//! field winning.
use crate::text::{to_chars, vec_eq};
use vstd::prelude::*;

verus! {

/// Field/value pairs in the order first recorded; no field twice.
pub type Fields = Vec<(String, String)>;

pub open spec fn fields_view(f: Seq<(String, String)>) -> Seq<(Seq<char>, Seq<char>)> {
    f.map_values(|p: (String, String)| (p.0@, p.1@))
}

/// The value recorded for `key`.
pub open spec fn lookup(f: Seq<(Seq<char>, Seq<char>)>, key: Seq<char>) -> Option<Seq<char>>
    decreases f.len(),
{
    if f.len() == 0 {
        None
    } else if f[0].0 == key {
        Some(f[0].1)
    } else {
        lookup(f.drop_first(), key)
    }
}

/// The value recorded for `key`, when it is not empty.
pub open spec fn get_spec(f: Seq<(Seq<char>, Seq<char>)>, key: Seq<char>) -> Option<Seq<char>> {
    match lookup(f, key) {
        Some(v) => if v.len() > 0 {
            Some(v)
        } else {
            None
        },
        None => None,
    }
}

/// `f` with `(key, value)` recorded unless `key` already is.
pub open spec fn record(f: Seq<(Seq<char>, Seq<char>)>, key: Seq<char>, value: Seq<char>) -> Seq<
    (Seq<char>, Seq<char>),
> {
    if lookup(f, key) is Some {
        f
    } else {
        f.push((key, value))
    }
}

fn find_key(f: &Fields, key: &Vec<char>) -> (r: Option<usize>)
    ensures
        match r {
            Some(i) => i < f@.len() && lookup(fields_view(f@), key@) == Some(f@[i as int].1@),
            None => lookup(fields_view(f@), key@) is None,
        },
{
    let ghost fv = fields_view(f@);
    let mut i: usize = 0;
    assert(fv.skip(0) =~= fv);
    while i < f.len()
        invariant
            0 <= i <= f@.len(),
            fv == fields_view(f@),
            lookup(fv, key@) == lookup(fv.skip(i as int), key@),
        decreases f.len() - i,
    {
        assert(fv.skip(i as int).drop_first() =~= fv.skip(i + 1));
        let k = to_chars(f[i].0.as_str());
        if vec_eq(&k, key) {
            return Some(i);
        }
        i = i + 1;
    }
    None
}

/// Records `value` for `key` unless a value is already recorded.
pub fn record_field(f: &mut Fields, key: String, value: String)
    ensures
        fields_view(final(f)@) == record(fields_view(old(f)@), key@, value@),
{
    let k = to_chars(key.as_str());
    match find_key(f, &k) {
        Some(_) => {},
        None => {
            let ghost before = fields_view(f@);
            f.push((key, value));
            assert(fields_view(f@) =~= before.push((k@, value@)));
        },
    }
}

/// The value recorded for `key`, when it is not empty.
pub fn get(f: &Fields, key: &str) -> (r: Option<String>)
    ensures
        match r {
            Some(v) => get_spec(fields_view(f@), key@) == Some(v@),
            None => get_spec(fields_view(f@), key@) is None,
        },
{
    let k = to_chars(key);
    match find_key(f, &k) {
        Some(i) => {
            let v = f[i].1.clone();
            if to_chars(v.as_str()).len() > 0 {
                Some(v)
            } else {
                None
            }
        },
        None => None,
    }
}

} // verus!
