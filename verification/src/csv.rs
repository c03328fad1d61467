//! Encoding and decoding records as comma-separated lines.

use crate::formatting::dec_rep;
use crate::formatting::push_decimal;
use crate::scan::line_content;
use crate::scan::line_end;
use crate::scan::parse_u32;
use crate::scan::parse_u32_spec;
use vstd::prelude::*;
use vstd::string::StringExecFns;

verus! {

/// Returned when a value cannot be written as a field.
#[derive(Debug)]
pub struct EncodingError;

/// Returned when a field or a line cannot be read back.
#[derive(Debug)]
pub struct DecodingError;

/// A value that can stand in one field of a record. The four
/// specification members default to saying nothing, so that impls
/// outside the library stay possible; the impls here sharpen them.
pub trait Field: Sized {
    /// Whether the value can be written at all.
    open spec fn spec_encode_ok(&self) -> bool {
        true
    }

    /// The text the value writes, when it can be written.
    open spec fn spec_encoded(&self) -> Seq<char> {
        Seq::empty()
    }

    /// Whether the text reads back as a value.
    open spec fn spec_decode_ok(t: Seq<char>) -> bool {
        true
    }

    /// Whether `v` is what the text `t` reads back as.
    open spec fn is_decoded(t: Seq<char>, v: &Self) -> bool {
        true
    }

    /// Appends the value's text to `target`.
    fn encode(&self, target: &mut String) -> (r: Result<(), EncodingError>)
        ensures
            self.spec_encode_ok() ==> r.is_ok() && final(target)@ == old(target)@
                + self.spec_encoded(),
            !self.spec_encode_ok() ==> r.is_err(),
    ;

    /// Reads a value back out of one field.
    fn decode(field: &str) -> (r: Result<Self, DecodingError>)
        ensures
            Self::spec_decode_ok(field@) ==> r.is_ok() && Self::is_decoded(
                field@,
                &r.unwrap(),
            ),
            !Self::spec_decode_ok(field@) ==> r.is_err(),
    ;
}

impl Field for u32 {
    /// A number can always be written.
    open spec fn spec_encode_ok(&self) -> bool {
        true
    }

    /// A number writes its decimal digits.
    open spec fn spec_encoded(&self) -> Seq<char> {
        dec_rep(*self as int)
    }

    /// A field reads back as a number when it parses as one.
    open spec fn spec_decode_ok(t: Seq<char>) -> bool {
        parse_u32_spec(t).is_some()
    }

    /// The value is what the field parses to.
    open spec fn is_decoded(t: Seq<char>, v: &u32) -> bool {
        parse_u32_spec(t) == Some(*v as int)
    }

    fn encode(&self, target: &mut String) -> (r: Result<(), EncodingError>) {
        if *self == 0 {
            crate::formatting::append_digit(target, 0);
            return Ok(());
        }
        push_decimal(target, *self);
        Ok(())
    }

    fn decode(field: &str) -> (r: Result<u32, DecodingError>) {
        match parse_u32(field) {
            Some(v) => Ok(v),
            None => Err(DecodingError),
        }
    }
}

impl Field for String {
    /// Text can be written unless it holds a separator.
    open spec fn spec_encode_ok(&self) -> bool {
        forall|i: int| 0 <= i < self@.len() ==> #[trigger] self@[i] != ',' && self@[i] != '\n'
    }

    /// Text writes itself.
    open spec fn spec_encoded(&self) -> Seq<char> {
        self@
    }

    /// Every field reads back as text.
    open spec fn spec_decode_ok(t: Seq<char>) -> bool {
        true
    }

    /// The value holds the field's characters.
    open spec fn is_decoded(t: Seq<char>, v: &String) -> bool {
        v@ == t
    }

    fn encode(&self, target: &mut String) -> (r: Result<(), EncodingError>) {
        let this = self.as_str();
        let n = this.unicode_len();
        let mut i: usize = 0;
        while i < n
            invariant
                0 <= i <= n,
                n == self@.len(),
                this@ == self@,
                forall|j: int| 0 <= j < i ==> #[trigger] self@[j] != ',' && self@[j] != '\n',
            decreases n - i,
        {
            let c = this.get_char(i);
            if c == ',' || c == '\n' {
                return Err(EncodingError);
            }
            i += 1;
        }
        target.append(this);
        Ok(())
    }

    fn decode(field: &str) -> (r: Result<String, DecodingError>) {
        Ok(String::from_str(field))
    }
}

impl<T: Field> Field for Option<T> {
    /// Nothing writes nothing; a value writes as itself.
    open spec fn spec_encode_ok(&self) -> bool {
        match self {
            Some(v) => v.spec_encode_ok(),
            None => true,
        }
    }

    open spec fn spec_encoded(&self) -> Seq<char> {
        match self {
            Some(v) => v.spec_encoded(),
            None => Seq::empty(),
        }
    }

    /// An empty field reads back as nothing.
    open spec fn spec_decode_ok(t: Seq<char>) -> bool {
        t.len() == 0 || T::spec_decode_ok(t)
    }

    open spec fn is_decoded(t: Seq<char>, v: &Option<T>) -> bool {
        if t.len() == 0 {
            v.is_none()
        } else {
            v matches Some(inner) && T::is_decoded(t, inner)
        }
    }

    fn encode(&self, target: &mut String) -> (r: Result<(), EncodingError>) {
        match self {
            Some(v) => v.encode(target),
            None => {
                proof {
                    assert(old(target)@ + Seq::<char>::empty() =~= old(target)@);
                }
                Ok(())
            },
        }
    }

    fn decode(field: &str) -> (r: Result<Option<T>, DecodingError>) {
        if field.unicode_len() == 0 {
            Ok(None)
        } else {
            match T::decode(field) {
                Ok(t) => Ok(Some(t)),
                Err(err) => Err(err),
            }
        }
    }
}

/// A value that can stand as one whole line. The four specification
/// members default to saying nothing, so that impls outside the library
/// stay possible; a verified impl sharpens them.
pub trait Record: Sized {
    /// Whether the record can be written at all.
    open spec fn spec_encode_ok(&self) -> bool {
        true
    }

    /// The line the record writes, without its newline.
    open spec fn spec_encoded(&self) -> Seq<char> {
        Seq::empty()
    }

    /// Whether the line reads back as a record.
    open spec fn spec_decode_ok(t: Seq<char>) -> bool {
        true
    }

    /// Whether `v` is what the line `t` reads back as.
    open spec fn is_decoded(t: Seq<char>, v: &Self) -> bool {
        true
    }

    /// Appends the record's line to `target`, without a newline.
    fn encode(&self, target: &mut String) -> (r: Result<(), EncodingError>)
        ensures
            self.spec_encode_ok() ==> r.is_ok() && final(target)@ == old(target)@
                + self.spec_encoded(),
            !self.spec_encode_ok() ==> r.is_err(),
    ;

    /// Reads a record back out of one line.
    fn decode(line: &str) -> (r: Result<Self, DecodingError>)
        ensures
            Self::spec_decode_ok(line@) ==> r.is_ok() && Self::is_decoded(line@, &r.unwrap()),
            !Self::spec_decode_ok(line@) ==> r.is_err(),
    ;
}

/// Whether every record of `rs` can be written.
pub open spec fn all_encode_ok<R: Record>(rs: Seq<R>) -> bool {
    forall|k: int| 0 <= k < rs.len() ==> (#[trigger] rs[k]).spec_encode_ok()
}

/// The text written for `rs`: each record's line followed by a newline.
pub open spec fn csv_text<R: Record>(rs: Seq<R>) -> Seq<char>
    decreases rs.len(),
{
    if rs.len() == 0 {
        Seq::empty()
    } else {
        rs[0].spec_encoded() + seq!['\n'] + csv_text(rs.skip(1))
    }
}

/// Writes each record as one line ending in a newline. Fails when some
/// record cannot be written.
pub fn encode_csv<R: Record>(records: &[R]) -> (r: Result<String, EncodingError>)
    ensures
        all_encode_ok(records@) ==> r.is_ok() && r.unwrap()@ == csv_text(records@),
        !all_encode_ok(records@) ==> r.is_err(),
{
    let mut result = String::new();
    let n = records.len();
    proof {
        assert(records@.skip(0) =~= records@);
        assert(result@ + csv_text(records@.skip(0)) =~= csv_text(records@));
    }
    let mut i: usize = 0;
    while i < n
        invariant
            0 <= i <= n,
            n == records@.len(),
            forall|k: int| 0 <= k < i ==> (#[trigger] records@[k]).spec_encode_ok(),
            all_encode_ok(records@) ==> csv_text(records@) == result@ + csv_text(records@.skip(i as int)),
        decreases n - i,
    {
        let record = &records[i];
        let res = record.encode(&mut result);
        match res {
            Ok(()) => {},
            Err(e) => {
                proof {
                    assert(!(records@[i as int]).spec_encode_ok());
                }
                return Err(e);
            },
        }
        result.append("\n");
        proof {
            reveal_strlit("\n");
            assert("\n"@ =~= seq!['\n']);
            if all_encode_ok(records@) {
                assert(records@.skip(i as int)[0] == records@[i as int]);
                assert(records@.skip(i as int).skip(1) =~= records@.skip(i + 1));
                assert(csv_text(records@.skip(i as int)) == records@[i as int].spec_encoded()
                    + seq!['\n'] + csv_text(records@.skip(i + 1)));
            }
        }
        i += 1;
    }
    proof {
        if all_encode_ok(records@) {
            assert(records@.skip(n as int) =~= Seq::<R>::empty());
            assert(result@ + csv_text(records@.skip(n as int)) =~= result@);
        }
    }
    Ok(result)
}

/// The lines of `s` from position `i` on.
pub open spec fn lines_of(s: Seq<char>, i: int) -> Seq<Seq<char>>
    decreases s.len() - i
        when 0 <= i <= s.len()
        via lines_of_decreases
{
    if i >= s.len() {
        Seq::empty()
    } else {
        let e = line_end(s, i);
        let next = if e < s.len() {
            e + 1
        } else {
            e
        };
        seq![line_content(s, i)] + lines_of(s, next)
    }
}

#[via_fn]
proof fn lines_of_decreases(s: Seq<char>, i: int) {
    if 0 <= i < s.len() {
        crate::scan::lemma_line_end_bounds(s, i);
    }
}

/// Reads one record per line. Fails when some line does not read back.
pub fn decode_csv<R: Record>(contents: &str) -> (r: Result<Vec<R>, DecodingError>)
    ensures
        (forall|k: int|
            0 <= k < lines_of(contents@, 0).len() ==> R::spec_decode_ok(
                #[trigger] lines_of(contents@, 0)[k],
            )) ==> r.is_ok() && r.unwrap()@.len() == lines_of(contents@, 0).len() && (forall|k: int|
            0 <= k < lines_of(contents@, 0).len() ==> R::is_decoded(
                #[trigger] lines_of(contents@, 0)[k],
                &r.unwrap()@[k],
            )),
        (exists|k: int|
            0 <= k < lines_of(contents@, 0).len() && !R::spec_decode_ok(
                #[trigger] lines_of(contents@, 0)[k],
            )) ==> r.is_err(),
{
    let s = contents;
    proof {
        assert(s@ == contents@);
    }
    let n = s.unicode_len();
    let ghost all = lines_of(s@, 0);
    proof {
        assert(all == lines_of(contents@, 0));
    }
    let ghost mut seen = Seq::<Seq<char>>::empty();
    let mut out: Vec<R> = Vec::new();
    let mut i: usize = 0;
    while i < n
        invariant
            0 <= i <= n,
            n == s@.len(),
            all == lines_of(s@, 0),
            s@ == contents@,
            all == lines_of(contents@, 0),
            seen + lines_of(s@, i as int) == all,
            out@.len() == seen.len(),
            forall|k: int| 0 <= k < seen.len() ==> R::spec_decode_ok(#[trigger] seen[k]),
            forall|k: int| 0 <= k < seen.len() ==> R::is_decoded(#[trigger] seen[k], &out@[k]),
        decreases n - i,
    {
        // Find the end of this line.
        let mut e: usize = i;
        while e < n && s.get_char(e) != '\n'
            invariant
                i <= e <= n,
                n == s@.len(),
                line_end(s@, i as int) == line_end(s@, e as int),
            decreases n - e,
        {
            e += 1;
        }
        proof {
            assert(line_end(s@, e as int) == e);
        }
        let content_end: usize = if e < n && e > i && s.get_char(e - 1) == '\r' {
            e - 1
        } else {
            e
        };
        let line = s.substring_char(i, content_end);
        proof {
            let raw = s@.subrange(i as int, e as int);
            if e > i {
                assert(raw.last() == s@[e - 1]);
            }
            if content_end < e {
                assert(raw.drop_last() =~= s@.subrange(i as int, e - 1));
            }
            assert(line@ == line_content(s@, i as int));
            assert(lines_of(s@, i as int)[0] == line_content(s@, i as int));
        }
        let res = R::decode(line);
        match res {
            Ok(record) => {
                out.push(record);
                proof {
                    seen = seen.push(line@);
                }
            },
            Err(err) => {
                proof {
                    assert(!R::spec_decode_ok(line@));
                    assert(lines_of(s@, i as int).len() >= 1);
                    assert(all.len() > seen.len());
                    assert(all[seen.len() as int] == lines_of(s@, i as int)[0]);
                    assert(0 <= seen.len() < lines_of(contents@, 0).len());
                    assert(lines_of(contents@, 0)[seen.len() as int] == line@);
                    assert(!R::spec_decode_ok(lines_of(contents@, 0)[seen.len() as int]));
                }
                return Err(err);
            },
        }
        proof {
            let next = if e < n {
                e + 1 as int
            } else {
                e as int
            };
            assert(lines_of(s@, i as int) == seq![line@] + lines_of(s@, next));
            assert(seen + lines_of(s@, next) =~= seen.drop_last() + (seq![line@] + lines_of(
                s@,
                next,
            )));
        }
        if e < n {
            i = e + 1;
        } else {
            i = e;
        }
    }
    proof {
        assert(lines_of(s@, n as int) =~= Seq::<Seq<char>>::empty());
        assert(seen + lines_of(s@, n as int) =~= seen);
        assert(seen =~= all);
        assert(out@.len() == all.len());
        assert forall|k: int| 0 <= k < all.len() implies R::spec_decode_ok(#[trigger] all[k])
            && R::is_decoded(all[k], &out@[k]) by {
            assert(all[k] == seen[k]);
        }
    }
    Ok(out)
}

} // verus!
