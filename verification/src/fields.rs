//! The record format: one record per line, fields joined by a single comma,
//! with no quoting and no escaping.
use vstd::prelude::*;
use vstd::string::StringExecFns;
use vstd::string::StrSliceExecFns;
use crate::text::slice_of;

verus! {

/// The character that separates the fields of a line.
pub const DELIMITER: char = ',';

/// The number of characters of `line` before its first delimiter, or the
/// length of `line` if it holds none.
pub open spec fn first_field_len(line: Seq<char>) -> nat
    decreases line.len(),
{
    if line.len() == 0 || line[0] == DELIMITER {
        0
    } else {
        1 + first_field_len(line.skip(1))
    }
}

/// The fields of `line`: what stands before its first delimiter, then the
/// fields of what follows that delimiter. A line without a delimiter is one
/// field, so every line has at least one.
pub open spec fn fields_of(line: Seq<char>) -> Seq<Seq<char>>
    decreases line.len(),
{
    let k = first_field_len(line);
    if k < line.len() {
        seq![line.take(k as int)] + fields_of(line.skip(k as int + 1))
    } else {
        seq![line]
    }
}

/// The line that holds `fields`, joined by the delimiter.
pub open spec fn line_of(fields: Seq<Seq<char>>) -> Seq<char>
    decreases fields.len(),
{
    if fields.len() == 0 {
        Seq::empty()
    } else if fields.len() == 1 {
        fields[0]
    } else {
        fields[0] + seq![DELIMITER] + line_of(fields.skip(1))
    }
}

/// Whether `field` holds no delimiter.
pub open spec fn delimiter_free(field: Seq<char>) -> bool {
    forall|j: int| 0 <= j < field.len() ==> field[j] != DELIMITER
}

/// The first field of a line ends at `k` when no delimiter stands before `k`
/// and `k` is a delimiter or the end of the line.
pub proof fn lemma_first_field_len(line: Seq<char>, k: int)
    requires
        0 <= k <= line.len(),
        delimiter_free(line.take(k)),
        k < line.len() ==> line[k] == DELIMITER,
    ensures
        first_field_len(line) == k,
    decreases k,
{
    if k > 0 {
        assert(line.take(k)[0] == line[0]);
        let rest = line.skip(1);
        let head = rest.take(k - 1);
        assert forall|j: int| 0 <= j < head.len() implies head[j] != DELIMITER by {
            assert(head[j] == line.take(k)[j + 1]);
        }
        lemma_first_field_len(rest, k - 1);
    }
}

/// The first field holds no delimiter and ends at one, or at the end of the
/// line.
pub proof fn lemma_first_field_bounds(line: Seq<char>)
    ensures
        first_field_len(line) <= line.len(),
        delimiter_free(line.take(first_field_len(line) as int)),
        first_field_len(line) < line.len() ==> line[first_field_len(line) as int] == DELIMITER,
    decreases line.len(),
{
    if line.len() > 0 && line[0] != DELIMITER {
        let rest = line.skip(1);
        lemma_first_field_bounds(rest);
        let k = first_field_len(line) as int;
        let head = line.take(k);
        assert forall|j: int| 0 <= j < head.len() implies head[j] != DELIMITER by {
            if j > 0 {
                assert(head[j] == rest.take(k - 1)[j - 1]);
            }
        }
    }
}

/// Splits `line` at every delimiter.
pub fn split_fields(line: &str) -> (fields: Vec<String>)
    ensures
        fields.deep_view() == fields_of(line@),
{
    let len = line.unicode_len();
    let mut fields: Vec<String> = Vec::new();
    let mut start: usize = 0;
    let mut i: usize = 0;
    assert(line@.skip(0) =~= line@);
    for c in it: line.chars()
        invariant
            it.seq() == line@,
            len == line@.len(),
            i == it.index(),
            start <= i <= len,
            delimiter_free(line@.subrange(start as int, i as int)),
            fields_of(line@) == fields.deep_view() + fields_of(line@.skip(start as int)),
    {
        if c == DELIMITER {
            let field = slice_of(line, start, i);
            proof {
                let rest = line@.skip(start as int);
                assert(rest.take(i - start) =~= line@.subrange(start as int, i as int));
                lemma_first_field_len(rest, i - start);
                assert(rest.skip(i - start + 1) =~= line@.skip(i + 1));
            }
            fields.push(field);
            start = i + 1;
        } else {
            assert(delimiter_free(line@.subrange(start as int, i + 1)));
        }
        i = i + 1;
    }
    let field = slice_of(line, start, len);
    proof {
        lemma_first_field_len(line@.skip(start as int), len - start);
    }
    fields.push(field);
    fields
}

/// The line of a record with the three fields `id`, `name` and `email`.
pub fn record_line(id: &str, name: &str, email: &str) -> (line: String)
    ensures
        line@ == line_of(seq![id@, name@, email@]),
{
    proof {
        reveal_strlit(",");
    }
    let mut line = String::from_str(id);
    line.append(",");
    line.append(name);
    line.append(",");
    line.append(email);
    proof {
        let all = seq![id@, name@, email@];
        let tail = seq![name@, email@];
        assert(all.skip(1) =~= tail);
        assert(tail.skip(1) =~= seq![email@]);
        assert(line_of(seq![email@]) == email@);
        assert(line_of(tail) == name@ + seq![DELIMITER] + email@);
    }
    line
}

/// Every line has at least one field, and no field holds a delimiter.
pub proof fn lemma_fields_of_shape(line: Seq<char>)
    ensures
        fields_of(line).len() >= 1,
        forall|j: int|
            0 <= j < fields_of(line).len() ==> delimiter_free(#[trigger] fields_of(line)[j]),
    decreases line.len(),
{
    lemma_first_field_bounds(line);
    let k = first_field_len(line) as int;
    if k < line.len() {
        lemma_fields_of_shape(line.skip(k + 1));
    } else {
        assert(line.take(k) =~= line);
    }
}

/// Joining the fields of a line gives the line back.
pub proof fn lemma_join_of_split(line: Seq<char>)
    ensures
        line_of(fields_of(line)) == line,
    decreases line.len(),
{
    let k = first_field_len(line) as int;
    lemma_first_field_bounds(line);
    if k < line.len() {
        let rest = line.skip(k + 1);
        lemma_join_of_split(rest);
        assert(fields_of(line).skip(1) =~= fields_of(rest));
    }
}

/// Splitting the line of one or more fields that hold no delimiter gives the
/// fields back.
pub proof fn lemma_split_of_join(fields: Seq<Seq<char>>)
    requires
        fields.len() >= 1,
        forall|j: int| 0 <= j < fields.len() ==> delimiter_free(#[trigger] fields[j]),
    ensures
        fields_of(line_of(fields)) == fields,
    decreases fields.len(),
{
    let line = line_of(fields);
    let first = fields[0];
    if fields.len() == 1 {
        lemma_first_field_len(line, first.len() as int);
    } else {
        let tail = fields.skip(1);
        lemma_split_of_join(tail);
        let k = first.len() as int;
        assert(line.take(k) =~= first);
        lemma_first_field_len(line, k);
        assert(line.skip(k + 1) =~= line_of(tail));
    }
}

} // verus!
