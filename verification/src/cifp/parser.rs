//! Whole-file classification: a CIFP file is split into lines and each
//! line classified (see [`crate::cifp::record`]).
use crate::cifp::record::{classify_line, classify_spec, RawRecord, RecordCategory};
use crate::text::{
    lemma_newline_pos_at, lemma_newline_pos_bound, lines_spec, newline_pos, slice_chars,
    string_from, strip_cr, to_chars,
};
use vstd::calc;
use vstd::prelude::*;
use vstd::string::*;
use vstd::utf8::*;

verus! {

#[verifier::external_type_specification]
#[verifier::external_body]
pub struct ExUtf8Error(std::str::Utf8Error);

#[derive(Debug)]
pub enum CifpError {
    /// The input is not valid UTF-8 text.
    Encoding(std::str::Utf8Error),
    /// Field extraction for this record category is not implemented.
    NotImplemented,
    /// The record is shorter than the fixed ARINC 424 record length.
    LineTooShort,
    /// The record's category is not the one this extractor reads.
    WrongCategory,
    /// A required field is blank.
    MissingField(&'static str),
    /// A required field does not decode.
    InvalidField(&'static str),
}

/// View of one classified record: its text and category.
pub open spec fn record_view(r: RawRecord) -> (Seq<char>, RecordCategory) {
    (r.raw@, r.category)
}

/// The records a sequence of lines classifies to, in order, lines that
/// classify to nothing dropped.
pub open spec fn classify_all(lines: Seq<Seq<char>>) -> Seq<(Seq<char>, RecordCategory)>
    decreases lines.len(),
{
    if lines.len() == 0 {
        seq![]
    } else {
        let rest = classify_all(lines.drop_first());
        match classify_spec(lines[0]) {
            Some(c) => seq![(lines[0], c)] + rest,
            None => rest,
        }
    }
}

proof fn lemma_classify_all_cons(l: Seq<char>, rest: Seq<Seq<char>>)
    ensures
        classify_all(seq![l] + rest) == match classify_spec(l) {
            Some(c) => seq![(l, c)] + classify_all(rest),
            None => classify_all(rest),
        },
{
    assert((seq![l] + rest).drop_first() =~= rest);
}

proof fn lemma_classify_all_append(x: Seq<Seq<char>>, y: Seq<Seq<char>>)
    ensures
        classify_all(x + y) == classify_all(x) + classify_all(y),
    decreases x.len(),
{
    if x.len() == 0 {
        assert(x + y =~= y);
    } else {
        assert((x + y).drop_first() =~= x.drop_first() + y);
        assert((x + y)[0] == x[0]);
        lemma_classify_all_append(x.drop_first(), y);
    }
}

/// Classifying two texts joined by a newline classifies each in turn:
/// records keep their order and no record spans the join. (A first text
/// ending in `'\r'` is left out: that `'\r'` would join the newline.)
pub proof fn lemma_classify_joined(a: Seq<char>, b: Seq<char>)
    requires
        !(a.len() > 0 && a.last() == '\r'),
    ensures
        classify_all(lines_spec(a + seq!['\n'] + b)) == classify_all(lines_spec(a)) + classify_all(
            lines_spec(b),
        ),
    decreases a.len(),
{
    let w = a + seq!['\n'] + b;
    lemma_newline_pos_bound(a);
    let p = newline_pos(a) as int;
    if p < a.len() {
        let a2 = a.skip(p + 1);
        assert forall|k: int| 0 <= k < p implies w[k] != '\n' by {
            assert(w[k] == a[k]);
        }
        assert(w[p] == a[p]);
        lemma_newline_pos_at(w, p);
        assert(w.take(p) =~= a.take(p));
        assert(w.skip(p + 1) =~= a2 + seq!['\n'] + b);
        if a2.len() > 0 {
            assert(a2.last() == a.last());
        }
        lemma_classify_joined(a2, b);
        let l = strip_cr(a.take(p));
        lemma_classify_all_append(seq![l], lines_spec(a2 + seq!['\n'] + b));
        lemma_classify_all_append(seq![l], lines_spec(a2));
        assert(lines_spec(w) == seq![l] + lines_spec(a2 + seq!['\n'] + b));
        assert(lines_spec(a) == seq![l] + lines_spec(a2));
        calc! {
            (==)
            classify_all(lines_spec(w)); {}
            classify_all(seq![l]) + classify_all(lines_spec(a2 + seq!['\n'] + b)); {}
            classify_all(seq![l]) + (classify_all(lines_spec(a2)) + classify_all(lines_spec(b))); {
                assert(classify_all(seq![l]) + (classify_all(lines_spec(a2)) + classify_all(lines_spec(b)))
                    =~= (classify_all(seq![l]) + classify_all(lines_spec(a2))) + classify_all(lines_spec(b)));
            }
            (classify_all(seq![l]) + classify_all(lines_spec(a2))) + classify_all(lines_spec(b)); {}
            classify_all(lines_spec(a)) + classify_all(lines_spec(b));
        }
    } else {
        assert forall|k: int| 0 <= k < a.len() implies w[k] != '\n' by {
            assert(w[k] == a[k]);
        }
        lemma_newline_pos_at(w, a.len() as int);
        assert(w.take(a.len() as int) =~= a);
        assert(w.skip(a.len() as int + 1) =~= b);
        assert(strip_cr(a) == a);
        assert(lines_spec(w) == seq![a] + lines_spec(b));
        lemma_classify_all_append(seq![a], lines_spec(b));
        if a.len() == 0 {
            assert(classify_spec(a) is None);
            assert(seq![a].drop_first() =~= Seq::<Seq<char>>::empty());
            assert(seq![a][0] == a);
            assert(classify_all(Seq::<Seq<char>>::empty()) =~= Seq::<(Seq<char>, RecordCategory)>::empty());
            assert(classify_all(seq![a]) =~= Seq::<(Seq<char>, RecordCategory)>::empty());
            assert(lines_spec(a) =~= Seq::<Seq<char>>::empty());
            assert(classify_all(Seq::<Seq<char>>::empty()) + classify_all(lines_spec(b)) =~= classify_all(lines_spec(b)));
        } else {
            assert(lines_spec(a) == seq![a]);
        }
    }
}

/// Splits a raw CIFP file into classified, still-unparsed records: one
/// per line that `classify_line` accepts, in file order.
pub fn classify_file(contents: &str) -> (r: Vec<RawRecord>)
    ensures
        r@.map_values(|x: RawRecord| record_view(x)) == classify_all(lines_spec(contents@)),
{
    let chars = to_chars(contents);
    let ghost s = chars@;
    let mut out: Vec<RawRecord> = Vec::new();
    let mut start: usize = 0;
    let mut i: usize = 0;
    proof {
        assert(s.skip(0) =~= s);
        assert(out@.map_values(|x: RawRecord| record_view(x)) =~= Seq::<
            (Seq<char>, RecordCategory),
        >::empty());
    }
    while i < chars.len()
        invariant
            s == chars@,
            s == contents@,
            start <= i <= chars.len(),
            forall|k: int| start <= k < i ==> s[k] != '\n',
            classify_all(lines_spec(s)) == out@.map_values(|x: RawRecord| record_view(x))
                + classify_all(lines_spec(s.skip(start as int))),
        decreases chars.len() - i,
    {
        if chars[i] == '\n' {
            let mut end = i;
            if end > start && chars[end - 1] == '\r' {
                end = end - 1;
            }
            let line_chars = slice_chars(&chars, start, end);
            let line = string_from(&line_chars);
            let ghost t = s.skip(start as int);
            let ghost l = strip_cr(t.take(i - start));
            proof {
                lemma_newline_pos_at(t, i - start);
                assert(t.take(i - start) =~= s.subrange(start as int, i as int));
                if i > start && s[i - 1] == '\r' {
                    assert(l =~= s.subrange(start as int, i - 1));
                } else {
                    assert(l =~= s.subrange(start as int, i as int));
                }
                assert(t.skip(i - start + 1) =~= s.skip(i + 1));
                assert(lines_spec(t) == seq![l] + lines_spec(s.skip(i + 1)));
                lemma_classify_all_cons(l, lines_spec(s.skip(i + 1)));
            }
            let ghost before = out@;
            match classify_line(line.as_str()) {
                Some(rec) => {
                    out.push(rec);
                    proof {
                        assert(out@.map_values(|x: RawRecord| record_view(x)) =~= before.map_values(
                            |x: RawRecord| record_view(x),
                        ) + seq![(l, rec.category)]);
                    }
                },
                None => {},
            }
            start = i + 1;
        }
        i = i + 1;
    }
    if start < chars.len() {
        let line_chars = slice_chars(&chars, start, chars.len());
        let line = string_from(&line_chars);
        let ghost t = s.skip(start as int);
        proof {
            lemma_newline_pos_at(t, t.len() as int);
            assert(t =~= s.subrange(start as int, s.len() as int));
            assert(lines_spec(t) == seq![t]);
            assert(lines_spec(t) =~= seq![t] + Seq::<Seq<char>>::empty());
            lemma_classify_all_cons(t, Seq::<Seq<char>>::empty());
        }
        let ghost before = out@;
        match classify_line(line.as_str()) {
            Some(rec) => {
                out.push(rec);
                proof {
                    assert(out@.map_values(|x: RawRecord| record_view(x)) =~= before.map_values(
                        |x: RawRecord| record_view(x),
                    ) + seq![(t, rec.category)]);
                }
            },
            None => {},
        }
    } else {
        proof {
            assert(s.skip(start as int).len() == 0);
        }
    }
    proof {
        assert(out@.map_values(|x: RawRecord| record_view(x)) =~= out@.map_values(
            |x: RawRecord| record_view(x),
        ) + Seq::<(Seq<char>, RecordCategory)>::empty());
    }
    out
}

/// `std::str::from_utf8`: `Ok` exactly when `bytes` are valid UTF-8,
/// and then a `str` whose encoding is `bytes`.
#[verifier::external_body]
fn utf8_text(bytes: &[u8]) -> (r: Result<&str, std::str::Utf8Error>)
    ensures
        r is Ok <==> valid_utf8(bytes@),
        r matches Ok(s) ==> s.spec_bytes() == bytes@,
{
    std::str::from_utf8(bytes)
}

/// [`classify_file`] over raw bytes, which must be UTF-8 text.
pub fn classify_bytes(bytes: &[u8]) -> (r: Result<Vec<RawRecord>, CifpError>)
    ensures
        r is Err <==> !valid_utf8(bytes@),
        r matches Err(e) ==> e is Encoding,
        r matches Ok(v) ==> v@.map_values(|x: RawRecord| record_view(x)) == classify_all(
            lines_spec(decode_utf8(bytes@)),
        ),
{
    match utf8_text(bytes) {
        Ok(text) => {
            proof {
                encode_utf8_decode_utf8(text@);
            }
            Ok(classify_file(text))
        },
        Err(e) => Err(CifpError::Encoding(e)),
    }
}

} // verus!
