//! The bookmark file: parameter sets worth coming back to, one per line.
//!
//! ```text
//! a=<value>,b=<value>,c=<value>,d=<value>
//! ```
//!
//! The file only grows. An entry is appended unless some line already
//! contains it, letter for letter.
use crate::orbit_text::{
    comma_separated, is_rendered_parameters, texts_of, write_bytes, COMMA, EQUALS, LABEL_A,
};
use crate::scalar::{Parameters, Scalar};
use vstd::prelude::*;

verus! {

/// The entry of one parameter set, given how each value reads:
/// `a=<a>,b=<b>,c=<c>,d=<d>`, without a line end.
pub open spec fn bookmark(a: Seq<u8>, b: Seq<u8>, c: Seq<u8>, d: Seq<u8>) -> Seq<u8> {
    seq![LABEL_A, EQUALS] + a + seq![COMMA, (LABEL_A + 1) as u8, EQUALS] + b + seq![
        COMMA,
        (LABEL_A + 2) as u8,
        EQUALS,
    ] + c + seq![COMMA, (LABEL_A + 3) as u8, EQUALS] + d
}

/// `needle` stands in `haystack` at `offset`.
pub open spec fn occurs_at(needle: Seq<u8>, haystack: Seq<u8>, offset: int) -> bool {
    &&& 0 <= offset
    &&& offset + needle.len() <= haystack.len()
    &&& haystack.subrange(offset, offset + needle.len()) == needle
}

/// `needle` stands somewhere in `haystack`.
pub open spec fn occurs_in(needle: Seq<u8>, haystack: Seq<u8>) -> bool {
    exists|offset: int| occurs_at(needle, haystack, offset)
}

/// Some line of `lines` contains `entry`.
pub open spec fn is_listed(entry: Seq<u8>, lines: Seq<Vec<u8>>) -> bool {
    exists|i: int| 0 <= i < lines.len() && occurs_in(entry, #[trigger] lines[i]@)
}

/// The comma-separated fields of a line. A line without a comma is one
/// field, the empty line included, and every comma starts a new field.
pub open spec fn fields(line: Seq<u8>) -> Seq<Seq<u8>>
    decreases line.len(),
{
    if line.len() == 0 {
        seq![Seq::empty()]
    } else {
        let before = fields(line.drop_last());
        if line.last() == COMMA {
            before.push(Seq::empty())
        } else {
            before.update(before.len() - 1, before.last().push(line.last()))
        }
    }
}

/// The values of a line: each field without the two bytes of its label and
/// its equals sign. A line with a field too short to hold them has none.
pub open spec fn values(line: Seq<u8>) -> Option<Seq<Seq<u8>>> {
    let all = fields(line);
    if forall|i: int| 0 <= i < all.len() ==> (#[trigger] all[i]).len() >= 2 {
        Some(Seq::new(all.len(), |i: int| all[i].skip(2)))
    } else {
        None
    }
}

/// `text` holds no comma.
pub open spec fn has_no_comma(text: Seq<u8>) -> bool {
    forall|i: int| 0 <= i < text.len() ==> #[trigger] text[i] != COMMA
}

/// Splitting loses nothing: no field holds a comma, and the fields with
/// commas between them are the line again.
pub proof fn lemma_fields_join(line: Seq<u8>)
    ensures
        fields(line).len() >= 1,
        forall|i: int| 0 <= i < fields(line).len() ==> has_no_comma(#[trigger] fields(line)[i]),
        comma_separated(fields(line)) == line,
    decreases line.len(),
{
    if line.len() == 0 {
        assert(comma_separated(fields(line)) =~= line);
    } else {
        let shorter = line.drop_last();
        let before = fields(shorter);
        lemma_fields_join(shorter);
        if line.last() == COMMA {
            let all = before.push(Seq::empty());
            assert(all.drop_last() =~= before);
            assert(comma_separated(all) =~= comma_separated(before) + seq![COMMA]);
            assert(shorter + seq![COMMA] =~= line);
        } else {
            let grown = before.last().push(line.last());
            let all = before.update(before.len() - 1, grown);
            assert forall|i: int| 0 <= i < all.len() implies has_no_comma(#[trigger] all[i]) by {
                if i < all.len() - 1 {
                    assert(all[i] == before[i]);
                } else {
                    assert(has_no_comma(before[i]));
                }
            }
            if before.len() == 1 {
                assert(comma_separated(before) == before[0]);
                assert(comma_separated(all) =~= grown);
            } else {
                assert(all.drop_last() =~= before.drop_last());
                assert(comma_separated(all) =~= comma_separated(before.drop_last()) + seq![COMMA]
                    + grown);
                assert(comma_separated(before) =~= comma_separated(before.drop_last()) + seq![
                    COMMA,
                ] + before.last());
            }
            assert(shorter.push(line.last()) =~= line);
            assert(comma_separated(all) =~= line);
        }
    }
}

/// A line has at least one field.
pub proof fn lemma_fields_nonempty(line: Seq<u8>)
    ensures
        fields(line).len() >= 1,
    decreases line.len(),
{
    if line.len() > 0 {
        lemma_fields_nonempty(line.drop_last());
    }
}

/// Text without a comma, put behind a line, lengthens the line's last field
/// and changes no other.
pub proof fn lemma_fields_extend(line: Seq<u8>, text: Seq<u8>)
    requires
        has_no_comma(text),
    ensures
        fields(line).len() >= 1,
        fields(line + text) == fields(line).update(
            fields(line).len() - 1,
            fields(line).last() + text,
        ),
    decreases text.len(),
{
    lemma_fields_nonempty(line);
    let before = fields(line);
    if text.len() == 0 {
        assert(line + text =~= line);
        assert(before.last() + text =~= before.last());
        assert(before.update(before.len() - 1, before.last()) =~= before);
    } else {
        let shorter = text.drop_last();
        assert(has_no_comma(shorter)) by {
            assert forall|i: int| 0 <= i < shorter.len() implies #[trigger] shorter[i] != COMMA by {
                assert(shorter[i] == text[i]);
            }
        }
        lemma_fields_extend(line, shorter);
        assert((line + text).drop_last() =~= line + shorter);
        assert((line + text).last() == text.last());
        assert(text.last() == text[text.len() - 1]);
        assert((before.last() + shorter).push(text.last()) =~= before.last() + text);
        assert(fields(line + text) =~= before.update(before.len() - 1, before.last() + text));
    }
}

/// A comma behind a line starts a new, empty field.
pub proof fn lemma_fields_comma(line: Seq<u8>)
    ensures
        fields(line + seq![COMMA]) == fields(line).push(Seq::empty()),
{
    assert((line + seq![COMMA]).drop_last() =~= line);
}

/// Reading an entry gives back the values it was written from, as long as
/// none of them holds a comma.
pub proof fn lemma_values_of_bookmark(a: Seq<u8>, b: Seq<u8>, c: Seq<u8>, d: Seq<u8>)
    requires
        has_no_comma(a),
        has_no_comma(b),
        has_no_comma(c),
        has_no_comma(d),
    ensures
        values(bookmark(a, b, c, d)) == Some(seq![a, b, c, d]),
{
    let fa = seq![LABEL_A, EQUALS] + a;
    let fb = seq![(LABEL_A + 1) as u8, EQUALS] + b;
    let fc = seq![(LABEL_A + 2) as u8, EQUALS] + c;
    let fd = seq![(LABEL_A + 3) as u8, EQUALS] + d;
    let start = Seq::<u8>::empty();
    assert(fields(start) =~= seq![Seq::<u8>::empty()]);
    lemma_fields_extend(start, fa);
    let l1 = start + fa;
    assert(fields(l1) =~= seq![fa]);
    lemma_fields_comma(l1);
    let l2 = l1 + seq![COMMA];
    lemma_fields_extend(l2, fb);
    let l3 = l2 + fb;
    assert(fields(l3) =~= seq![fa, fb]);
    lemma_fields_comma(l3);
    let l4 = l3 + seq![COMMA];
    lemma_fields_extend(l4, fc);
    let l5 = l4 + fc;
    assert(fields(l5) =~= seq![fa, fb, fc]);
    lemma_fields_comma(l5);
    let l6 = l5 + seq![COMMA];
    lemma_fields_extend(l6, fd);
    let l7 = l6 + fd;
    assert(fields(l7) =~= seq![fa, fb, fc, fd]);
    assert(l7 =~= bookmark(a, b, c, d));
    let all = fields(l7);
    assert(all[0].skip(2) =~= a);
    assert(all[1].skip(2) =~= b);
    assert(all[2].skip(2) =~= c);
    assert(all[3].skip(2) =~= d);
    assert(Seq::new(all.len(), |i: int| all[i].skip(2)) =~= seq![a, b, c, d]);
}

/// An entry is contained in itself, so a line that was just appended is
/// found when it is looked for again.
pub proof fn lemma_listed_after_append(entry: Seq<u8>, lines: Seq<Vec<u8>>, line: Vec<u8>)
    requires
        line@ == entry,
    ensures
        is_listed(entry, lines.push(line)),
{
    assert(entry.subrange(0, entry.len() as int) =~= entry);
    assert(occurs_at(entry, line@, 0));
    assert(lines.push(line)[lines.len() as int] == line);
}

/// Appends the entry of one parameter set to `out`, given how each value
/// reads.
pub fn write_bookmark(out: &mut Vec<u8>, a: &[u8], b: &[u8], c: &[u8], d: &[u8])
    ensures
        final(out)@ == old(out)@ + bookmark(a@, b@, c@, d@),
{
    out.push(LABEL_A);
    out.push(EQUALS);
    write_bytes(out, a);
    out.push(COMMA);
    out.push(LABEL_A + 1);
    out.push(EQUALS);
    write_bytes(out, b);
    out.push(COMMA);
    out.push(LABEL_A + 2);
    out.push(EQUALS);
    write_bytes(out, c);
    out.push(COMMA);
    out.push(LABEL_A + 3);
    out.push(EQUALS);
    write_bytes(out, d);
    assert(out@ =~= old(out)@ + bookmark(a@, b@, c@, d@));
}

/// `entry` is the entry of `parameters`, with every value written as
/// `render` writes it.
pub open spec fn is_bookmark_of<R: Fn(Scalar) -> Vec<u8>>(
    entry: Seq<u8>,
    parameters: Parameters,
    render: R,
) -> bool {
    exists|rendered: Seq<Vec<u8>>|
        {
            &&& #[trigger] is_rendered_parameters(rendered, parameters, render)
            &&& entry == bookmark(rendered[0]@, rendered[1]@, rendered[2]@, rendered[3]@)
        }
}

/// The entry of `parameters`, with every value written by `render`.
pub fn bookmark_line<R: Fn(Scalar) -> Vec<u8>>(parameters: Parameters, render: R) -> (entry: Vec<u8>)
    requires
        render.requires((parameters.a,)),
        render.requires((parameters.b,)),
        render.requires((parameters.c,)),
        render.requires((parameters.d,)),
    ensures
        is_bookmark_of(entry@, parameters, render),
{
    let a = render(parameters.a);
    let b = render(parameters.b);
    let c = render(parameters.c);
    let d = render(parameters.d);
    let mut entry: Vec<u8> = Vec::new();
    write_bookmark(&mut entry, a.as_slice(), b.as_slice(), c.as_slice(), d.as_slice());
    proof {
        let rendered = seq![a, b, c, d];
        assert(is_rendered_parameters(rendered, parameters, render));
        assert(entry@ =~= bookmark(rendered[0]@, rendered[1]@, rendered[2]@, rendered[3]@));
    }
    entry
}

/// Whether `needle` stands in `haystack` at `offset`.
fn matches_at(haystack: &[u8], needle: &[u8], offset: usize) -> (same: bool)
    requires
        offset + needle@.len() <= haystack@.len(),
    ensures
        same == occurs_at(needle@, haystack@, offset as int),
{
    let size = haystack.len();
    let mut i: usize = 0;
    while i < needle.len()
        invariant
            i <= needle@.len(),
            offset + needle@.len() <= haystack@.len() == size,
            haystack@.subrange(offset as int, offset + i) == needle@.take(i as int),
        decreases needle@.len() - i,
    {
        if haystack[offset + i] != needle[i] {
            proof {
                let window = haystack@.subrange(offset as int, offset + needle@.len());
                assert(window[i as int] != needle@[i as int]);
            }
            return false;
        }
        i += 1;
        assert(haystack@.subrange(offset as int, offset + i) =~= needle@.take(i as int)) by {
            let longer = haystack@.subrange(offset as int, offset + i);
            let shorter = haystack@.subrange(offset as int, offset + i - 1);
            assert(shorter == needle@.take(i - 1));
            assert forall|k: int| 0 <= k < i implies longer[k] == needle@.take(i as int)[k] by {
                if k < i - 1 {
                    assert(longer[k] == shorter[k]);
                    assert(needle@.take(i - 1)[k] == needle@[k]);
                }
            }
        }
    }
    assert(needle@.take(i as int) =~= needle@);
    true
}

/// Whether `haystack` contains `needle`, letter for letter. Everything
/// contains the empty text.
pub fn contains(haystack: &[u8], needle: &[u8]) -> (found: bool)
    ensures
        found == occurs_in(needle@, haystack@),
{
    if needle.len() > haystack.len() {
        return false;
    }
    let last = haystack.len() - needle.len();
    let mut offset: usize = 0;
    loop
        invariant
            last == haystack@.len() - needle@.len(),
            offset <= last,
            forall|earlier: int| 0 <= earlier < offset ==> !occurs_at(needle@, haystack@, earlier),
        decreases last - offset,
    {
        if matches_at(haystack, needle, offset) {
            return true;
        }
        if offset == last {
            return false;
        }
        offset += 1;
    }
}

/// Whether some line of `lines` contains `entry`: whether the parameter set
/// is bookmarked already.
pub fn is_bookmarked(lines: &Vec<Vec<u8>>, entry: &[u8]) -> (found: bool)
    ensures
        found == is_listed(entry@, lines@),
{
    let mut i: usize = 0;
    while i < lines.len()
        invariant
            i <= lines@.len(),
            forall|earlier: int| 0 <= earlier < i ==> !occurs_in(entry@, #[trigger] lines@[earlier]@),
        decreases lines@.len() - i,
    {
        if contains(lines[i].as_slice(), entry) {
            return true;
        }
        i += 1;
    }
    false
}

/// The comma-separated fields of `line`.
pub fn split_fields(line: &[u8]) -> (all: Vec<Vec<u8>>)
    ensures
        texts_of(all@) == fields(line@),
{
    let mut all: Vec<Vec<u8>> = Vec::new();
    let mut current: Vec<u8> = Vec::new();
    let mut i: usize = 0;
    assert(line@.take(0) =~= Seq::<u8>::empty());
    assert(texts_of(all@).push(current@) =~= fields(line@.take(0)));
    while i < line.len()
        invariant
            i <= line@.len(),
            texts_of(all@).push(current@) == fields(line@.take(i as int)),
        decreases line@.len() - i,
    {
        let byte = line[i];
        let ghost before = fields(line@.take(i as int));
        proof {
            assert(line@.take(i + 1).drop_last() =~= line@.take(i as int));
            assert(line@.take(i + 1).last() == byte);
        }
        if byte == COMMA {
            let ghost done = texts_of(all@);
            all.push(current);
            current = Vec::new();
            assert(texts_of(all@) =~= before);
            assert(texts_of(all@).push(current@) =~= fields(line@.take(i + 1)));
        } else {
            let ghost shorter = current@;
            current.push(byte);
            assert(texts_of(all@).push(current@) =~= before.update(
                before.len() - 1,
                shorter.push(byte),
            ));
        }
        i += 1;
    }
    assert(line@.take(i as int) =~= line@);
    let ghost done = texts_of(all@);
    let ghost last = current@;
    all.push(current);
    assert(texts_of(all@) =~= done.push(last));
    all
}

/// The values of a bookmark line, in their order: each field without its
/// label and equals sign. A line with a field too short to hold them is
/// refused.
pub fn bookmark_values(line: &[u8]) -> (read: Option<Vec<Vec<u8>>>)
    ensures
        match read {
            Some(all) => values(line@) == Some(texts_of(all@)),
            None => values(line@) is None,
        },
{
    let all = split_fields(line);
    let mut read: Vec<Vec<u8>> = Vec::new();
    let mut i: usize = 0;
    while i < all.len()
        invariant
            i <= all@.len(),
            texts_of(all@) == fields(line@),
            read@.len() == i,
            forall|k: int| 0 <= k < i ==> (#[trigger] all@[k])@.len() >= 2,
            forall|k: int| 0 <= k < i ==> (#[trigger] read@[k])@ == all@[k]@.skip(2),
        decreases all@.len() - i,
    {
        let field = all[i].as_slice();
        if field.len() < 2 {
            proof {
                assert(texts_of(all@)[i as int] == all@[i as int]@);
                assert(fields(line@)[i as int].len() < 2);
            }
            return None;
        }
        let mut value: Vec<u8> = Vec::new();
        let mut k: usize = 2;
        assert(field@.subrange(2, 2) =~= Seq::<u8>::empty());
        while k < field.len()
            invariant
                2 <= k <= field@.len(),
                value@ == field@.subrange(2, k as int),
            decreases field@.len() - k,
        {
            value.push(field[k]);
            k += 1;
            assert(value@ =~= field@.subrange(2, k as int));
        }
        assert(value@ =~= field@.skip(2));
        read.push(value);
        i += 1;
    }
    proof {
        let texts = fields(line@);
        assert forall|k: int| 0 <= k < texts.len() implies (#[trigger] texts[k]).len() >= 2 by {
            assert(texts_of(all@)[k] == all@[k]@);
        }
        assert(texts_of(read@) =~= Seq::new(texts.len(), |k: int| texts[k].skip(2))) by {
            assert forall|k: int| 0 <= k < texts.len() implies texts_of(read@)[k] == texts[k].skip(
                2,
            ) by {
                assert(texts_of(all@)[k] == all@[k]@);
            }
        }
    }
    Some(read)
}

} // verus!
