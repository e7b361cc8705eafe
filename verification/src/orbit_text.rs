//! The plain-text orbit file.
//!
//! ```text
//! #<name>,<number of parameters>,<dimensionality>
//! #<label>=<value>          once per parameter, in their order
//! <index>:<x>,<y>           once per position, counted from 0
//! ```
//!
//! Every line ends in a line feed. A position of a three-dimensional orbit
//! has a third coordinate after a second comma.
use crate::scalar::{Parameters, Point, Scalar};
use vstd::prelude::*;
use vstd::string::StringSliceAdditionalSpecFns;

verus! {

/// `#`, which opens every line of the preamble.
pub const HASH: u8 = 35;

/// `,`, which separates the fields of a line.
pub const COMMA: u8 = 44;

/// `:`, which follows the index of a position.
pub const COLON: u8 = 58;

/// `=`, which follows the label of a parameter.
pub const EQUALS: u8 = 61;

/// The line feed that ends every line.
pub const NEWLINE: u8 = 10;

/// The digit `0`; the other digits follow it.
pub const DIGIT_ZERO: u8 = 48;

/// The label `a` of the first parameter; `b`, `c` and `d` follow it.
pub const LABEL_A: u8 = 97;

/// The decimal digits of `n`, most significant first, without padding.
pub open spec fn decimal(n: nat) -> Seq<u8>
    decreases n,
{
    if n < 10 {
        seq![(DIGIT_ZERO + n) as u8]
    } else {
        decimal(n / 10).push((DIGIT_ZERO + n % 10) as u8)
    }
}

/// The number that decimal digits stand for.
pub open spec fn decimal_value(digits: Seq<u8>) -> nat
    decreases digits.len(),
{
    if digits.len() == 0 {
        0
    } else {
        (decimal_value(digits.drop_last()) * 10 + (digits.last() - DIGIT_ZERO)) as nat
    }
}

/// The digits of a number are digits, begin with a zero only for zero
/// itself, and read back as the number.
pub proof fn lemma_decimal_reads_back(n: nat)
    ensures
        decimal(n).len() >= 1,
        forall|i: int|
            0 <= i < decimal(n).len() ==> DIGIT_ZERO <= #[trigger] decimal(n)[i] <= DIGIT_ZERO + 9,
        decimal(n)[0] == DIGIT_ZERO <==> n == 0,
        decimal_value(decimal(n)) == n,
    decreases n,
{
    if n < 10 {
        assert(decimal(n).drop_last() =~= Seq::<u8>::empty());
        assert(decimal_value(decimal(n).drop_last()) == 0);
    } else {
        lemma_decimal_reads_back(n / 10);
        assert(decimal(n).drop_last() =~= decimal(n / 10));
        assert(decimal(n)[0] == decimal(n / 10)[0]);
    }
}

/// The first line: `#<name>,<number of parameters>,<dimensionality>`.
pub open spec fn preamble(name: Seq<u8>, num_parameters: nat, dimensionality: nat) -> Seq<u8> {
    seq![HASH] + name + seq![COMMA] + decimal(num_parameters) + seq![COMMA] + decimal(
        dimensionality,
    ) + seq![NEWLINE]
}

/// The line of one parameter: `#<label>=<value>`.
pub open spec fn parameter_line(label: u8, value: Seq<u8>) -> Seq<u8> {
    seq![HASH, label, EQUALS] + value + seq![NEWLINE]
}

/// Texts in a row with a comma between each two of them.
pub open spec fn comma_separated(coordinates: Seq<Seq<u8>>) -> Seq<u8>
    decreases coordinates.len(),
{
    if coordinates.len() == 0 {
        Seq::empty()
    } else if coordinates.len() == 1 {
        coordinates[0]
    } else {
        comma_separated(coordinates.drop_last()) + seq![COMMA] + coordinates.last()
    }
}

/// The line of one position: `<index>:<x>,<y>`.
pub open spec fn position_line(index: nat, coordinates: Seq<Seq<u8>>) -> Seq<u8> {
    decimal(index) + seq![COLON] + comma_separated(coordinates) + seq![NEWLINE]
}

/// The lines of the four parameters `a`, `b`, `c`, `d`.
pub open spec fn parameter_lines(values: Seq<Seq<u8>>) -> Seq<u8>
    decreases values.len(),
{
    if values.len() == 0 {
        Seq::empty()
    } else {
        parameter_lines(values.drop_last()) + parameter_line(
            (LABEL_A + values.len() - 1) as u8,
            values.last(),
        )
    }
}

/// The lines of the positions of a planar orbit, indexed from 0 in their
/// order.
pub open spec fn position_lines(positions: Seq<(Seq<u8>, Seq<u8>)>) -> Seq<u8>
    decreases positions.len(),
{
    if positions.len() == 0 {
        Seq::empty()
    } else {
        position_lines(positions.drop_last()) + position_line(
            (positions.len() - 1) as nat,
            seq![positions.last().0, positions.last().1],
        )
    }
}

/// The whole file of a planar orbit: the preamble, the parameters, the
/// positions.
pub open spec fn document(
    name: Seq<u8>,
    num_parameters: nat,
    dimensionality: nat,
    values: Seq<Seq<u8>>,
    positions: Seq<(Seq<u8>, Seq<u8>)>,
) -> Seq<u8> {
    preamble(name, num_parameters, dimensionality) + parameter_lines(values) + position_lines(
        positions,
    )
}

/// Appends `bytes` to `out`.
pub fn write_bytes(out: &mut Vec<u8>, bytes: &[u8])
    ensures
        final(out)@ == old(out)@ + bytes@,
{
    let mut i: usize = 0;
    while i < bytes.len()
        invariant
            i <= bytes@.len(),
            out@ == old(out)@ + bytes@.take(i as int),
        decreases bytes@.len() - i,
    {
        out.push(bytes[i]);
        i += 1;
        assert(out@ =~= old(out)@ + bytes@.take(i as int));
    }
    assert(bytes@.take(i as int) =~= bytes@);
}

/// Appends the decimal digits of `n` to `out`.
pub fn write_decimal(out: &mut Vec<u8>, n: usize)
    ensures
        final(out)@ == old(out)@ + decimal(n as nat),
    decreases n,
{
    if n >= 10 {
        write_decimal(out, n / 10);
    }
    out.push(DIGIT_ZERO + (n % 10) as u8);
    assert(out@ =~= old(out)@ + decimal(n as nat));
}

/// Appends the first line of an orbit file to `out`.
pub fn write_preamble(out: &mut Vec<u8>, name: &str, num_parameters: u8, dimensionality: u8)
    ensures
        final(out)@ == old(out)@ + preamble(
            name.spec_bytes(),
            num_parameters as nat,
            dimensionality as nat,
        ),
{
    out.push(HASH);
    write_bytes(out, name.as_bytes());
    out.push(COMMA);
    write_decimal(out, num_parameters as usize);
    out.push(COMMA);
    write_decimal(out, dimensionality as usize);
    out.push(NEWLINE);
    assert(out@ =~= old(out)@ + preamble(
        name.spec_bytes(),
        num_parameters as nat,
        dimensionality as nat,
    ));
}

/// Appends the line of the parameter `label`, whose value reads `value`, to
/// `out`.
pub fn write_parameter(out: &mut Vec<u8>, label: u8, value: &[u8])
    ensures
        final(out)@ == old(out)@ + parameter_line(label, value@),
{
    out.push(HASH);
    out.push(label);
    out.push(EQUALS);
    write_bytes(out, value);
    out.push(NEWLINE);
    assert(out@ =~= old(out)@ + parameter_line(label, value@));
}

/// The texts of `coordinates`, one by one.
pub open spec fn texts_of(coordinates: Seq<Vec<u8>>) -> Seq<Seq<u8>> {
    Seq::new(coordinates.len(), |i: int| coordinates[i]@)
}

/// Appends the line of the position number `index`, whose coordinates read
/// `coordinates`, to `out`.
pub fn write_position(out: &mut Vec<u8>, index: usize, coordinates: &Vec<Vec<u8>>)
    ensures
        final(out)@ == old(out)@ + position_line(index as nat, texts_of(coordinates@)),
{
    write_decimal(out, index);
    out.push(COLON);
    let ghost start = out@;
    let mut i: usize = 0;
    while i < coordinates.len()
        invariant
            i <= coordinates@.len(),
            out@ == start + comma_separated(texts_of(coordinates@).take(i as int)),
        decreases coordinates@.len() - i,
    {
        if i > 0 {
            out.push(COMMA);
        }
        write_bytes(out, coordinates[i].as_slice());
        proof {
            let texts = texts_of(coordinates@);
            assert(texts.take(i + 1).drop_last() =~= texts.take(i as int));
            assert(texts.take(i + 1).last() == coordinates@[i as int]@);
            assert(out@ =~= start + comma_separated(texts.take(i + 1)));
        }
        i += 1;
    }
    out.push(NEWLINE);
    proof {
        let texts = texts_of(coordinates@);
        assert(texts.take(i as int) =~= texts);
        assert(out@ =~= old(out)@ + position_line(index as nat, texts));
    }
}

/// `values` holds what `render` returned for the four parameters, in
/// their order.
pub open spec fn is_rendered_parameters<R: Fn(Scalar) -> Vec<u8>>(
    values: Seq<Vec<u8>>,
    parameters: Parameters,
    render: R,
) -> bool {
    &&& values.len() == 4
    &&& render.ensures((parameters.a,), values[0])
    &&& render.ensures((parameters.b,), values[1])
    &&& render.ensures((parameters.c,), values[2])
    &&& render.ensures((parameters.d,), values[3])
}

/// `positions` holds, for each position of `history` in order, what
/// `render` returned for its `x` and for its `y`.
pub open spec fn is_rendered_history<R: Fn(Scalar) -> Vec<u8>>(
    positions: Seq<(Vec<u8>, Vec<u8>)>,
    history: Seq<Point>,
    render: R,
) -> bool {
    &&& positions.len() == history.len()
    &&& forall|i: int|
        0 <= i < history.len() ==> {
            &&& render.ensures((history[i].x,), (#[trigger] positions[i]).0)
            &&& render.ensures((history[i].y,), positions[i].1)
        }
}

/// The texts of rendered positions, pair by pair.
pub open spec fn position_texts(positions: Seq<(Vec<u8>, Vec<u8>)>) -> Seq<(Seq<u8>, Seq<u8>)> {
    Seq::new(positions.len(), |i: int| (positions[i].0@, positions[i].1@))
}

/// `text` is the orbit file of a planar attractor called `name`, which
/// declares `num_parameters` parameters and `dimensionality` dimensions, with
/// every number written as `render` writes it.
pub open spec fn is_orbit_text<R: Fn(Scalar) -> Vec<u8>>(
    text: Seq<u8>,
    name: Seq<u8>,
    num_parameters: u8,
    dimensionality: u8,
    parameters: Parameters,
    history: Seq<Point>,
    render: R,
) -> bool {
    exists|values: Seq<Vec<u8>>, positions: Seq<(Vec<u8>, Vec<u8>)>|
        {
            &&& is_rendered_parameters(values, parameters, render)
            &&& is_rendered_history(positions, history, render)
            &&& text == #[trigger] document(
                name,
                num_parameters as nat,
                dimensionality as nat,
                texts_of(values),
                position_texts(positions),
            )
        }
}

/// The orbit file of a planar attractor: its name, the number of
/// parameters and of dimensions that it declares, its parameters `a` to `d`,
/// and every position of `history` under its index. `render` writes each
/// number.
pub fn orbit_text<R: Fn(Scalar) -> Vec<u8>>(
    name: &str,
    num_parameters: u8,
    dimensionality: u8,
    parameters: Parameters,
    history: &Vec<Point>,
    render: R,
) -> (text: Vec<u8>)
    requires
        forall|value: Scalar| render.requires((value,)),
    ensures
        is_orbit_text(
            text@,
            name.spec_bytes(),
            num_parameters,
            dimensionality,
            parameters,
            history@,
            render,
        ),
{
    let mut text: Vec<u8> = Vec::new();
    write_preamble(&mut text, name, num_parameters, dimensionality);
    let a = render(parameters.a);
    write_parameter(&mut text, LABEL_A, a.as_slice());
    let b = render(parameters.b);
    write_parameter(&mut text, LABEL_A + 1, b.as_slice());
    let c = render(parameters.c);
    write_parameter(&mut text, LABEL_A + 2, c.as_slice());
    let d = render(parameters.d);
    write_parameter(&mut text, LABEL_A + 3, d.as_slice());
    let ghost values = seq![a, b, c, d];
    let ghost head = text@;
    proof {
        let texts = texts_of(values);
        let three = texts.drop_last();
        let two = three.drop_last();
        let one = two.drop_last();
        assert(parameter_lines(one.drop_last()) =~= Seq::<u8>::empty());
        assert(one.last() == a@ && two.last() == b@ && three.last() == c@ && texts.last() == d@);
        assert(parameter_lines(one) =~= parameter_line(LABEL_A, a@));
        assert(parameter_lines(two) =~= parameter_lines(one) + parameter_line(
            (LABEL_A + 1) as u8,
            b@,
        ));
        assert(parameter_lines(three) =~= parameter_lines(two) + parameter_line(
            (LABEL_A + 2) as u8,
            c@,
        ));
        assert(parameter_lines(texts) =~= parameter_lines(three) + parameter_line(
            (LABEL_A + 3) as u8,
            d@,
        ));
        assert(head =~= preamble(
            name.spec_bytes(),
            num_parameters as nat,
            dimensionality as nat,
        ) + parameter_lines(texts));
    }
    let ghost mut positions: Seq<(Vec<u8>, Vec<u8>)> = Seq::empty();
    let mut i: usize = 0;
    while i < history.len()
        invariant
            forall|value: Scalar| render.requires((value,)),
            i <= history@.len(),
            is_rendered_history(positions, history@.take(i as int), render),
            text@ == head + position_lines(position_texts(positions)),
        decreases history@.len() - i,
    {
        let position = history[i];
        let x = render(position.x);
        let y = render(position.y);
        let ghost pair = (x, y);
        let mut coordinates: Vec<Vec<u8>> = Vec::new();
        coordinates.push(x);
        coordinates.push(y);
        write_position(&mut text, i, &coordinates);
        proof {
            let longer = positions.push(pair);
            assert(texts_of(coordinates@) =~= seq![pair.0@, pair.1@]);
            assert(position_texts(longer).drop_last() =~= position_texts(positions));
            assert(position_texts(longer).last() == (pair.0@, pair.1@));
            assert(text@ =~= head + position_lines(position_texts(longer)));
            assert(history@.take(i + 1) =~= history@.take(i as int).push(position));
            positions = longer;
        }
        i += 1;
    }
    proof {
        assert(history@.take(i as int) =~= history@);
        assert(text@ == document(
            name.spec_bytes(),
            num_parameters as nat,
            dimensionality as nat,
            texts_of(values),
            position_texts(positions),
        ));
    }
    text
}

} // verus!
