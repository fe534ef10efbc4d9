//! The s-expression printer: lists space-separated in parentheses, dotted
//! tails after ` . `, identifiers verbatim, integers in decimal.

use vstd::prelude::*;
use vstd::string::StringExecFns;

use crate::cst::{SExp, SExpV, Span};

verus! {

broadcast use vstd::seq::group_seq_axioms, vstd::std_specs::vec::group_vec_axioms;

/// The decimal digit character of a value below ten.
pub open spec fn digit_char(d: int) -> char {
    if d == 0 {
        '0'
    } else if d == 1 {
        '1'
    } else if d == 2 {
        '2'
    } else if d == 3 {
        '3'
    } else if d == 4 {
        '4'
    } else if d == 5 {
        '5'
    } else if d == 6 {
        '6'
    } else if d == 7 {
        '7'
    } else if d == 8 {
        '8'
    } else {
        '9'
    }
}

/// The decimal digits of a natural number, most significant first.
pub open spec fn dec_digits(n: nat) -> Seq<char>
    decreases n,
{
    if n < 10 {
        seq![digit_char(n as int)]
    } else {
        dec_digits(n / 10) + seq![digit_char((n % 10) as int)]
    }
}

/// The decimal text of a signed value.
pub open spec fn int_chars(v: int) -> Seq<char> {
    if v < 0 {
        seq!['-'] + dec_digits((-v) as nat)
    } else {
        dec_digits(v as nat)
    }
}

/// The printed text of an s-expression.
pub open spec fn spec_emit(e: SExpV) -> Seq<char>
    decreases e, 1int, 0int,
    via spec_emit_decreases
{
    match e {
        SExpV::Identifier { text, .. } => text,
        SExpV::Integer { value, .. } => int_chars(value as int),
        SExpV::List { elements, tail, .. } => seq!['('] + spec_emit_elements(elements, 0) + (
        match tail {
            Some((_, t)) => seq![' ', '.', ' '] + spec_emit(*t),
            None => Seq::<char>::empty(),
        }) + seq![')'],
    }
}

#[via_fn]
proof fn spec_emit_decreases(e: SExpV) {
    match e {
        SExpV::List { elements, tail, .. } => {
            assert(decreases_to!(e => elements));
            match tail {
                Some((sp, t)) => {
                    assert(decreases_to!(e => *t));
                },
                None => {},
            }
        },
        _ => {},
    }
}

/// The printed text of the elements from position `i` on, space-separated,
/// with a space before every element but the first.
pub open spec fn spec_emit_elements(elements: Seq<SExpV>, i: int) -> Seq<char>
    decreases elements, 0int, elements.len() - i,
{
    if i < 0 || i >= elements.len() {
        Seq::empty()
    } else {
        (if i > 0 {
            seq![' ']
        } else {
            Seq::<char>::empty()
        }) + spec_emit(elements[i]) + spec_emit_elements(elements, i + 1)
    }
}

/// Writes the decimal digits of a value into the buffer, per [`dec_digits`].
fn emit_u64(out: &mut String, n: u64)
    ensures
        final(out)@ == old(out)@ + dec_digits(n as nat),
    decreases n,
{
    if n < 10 {
        let c: char = match n {
            0 => '0',
            1 => '1',
            2 => '2',
            3 => '3',
            4 => '4',
            5 => '5',
            6 => '6',
            7 => '7',
            8 => '8',
            _ => '9',
        };
        crate::cst::push_char(out, c);
        proof {
            assert(out@ =~= old(out)@ + dec_digits(n as nat));
        }
    } else {
        emit_u64(out, n / 10);
        let d = n % 10;
        let c: char = match d {
            0 => '0',
            1 => '1',
            2 => '2',
            3 => '3',
            4 => '4',
            5 => '5',
            6 => '6',
            7 => '7',
            8 => '8',
            _ => '9',
        };
        crate::cst::push_char(out, c);
        proof {
            assert(out@ =~= old(out)@ + dec_digits(n as nat));
        }
    }
}

/// Writes the decimal text of a signed value, per [`int_chars`].
fn emit_i64(out: &mut String, v: i64)
    ensures
        final(out)@ == old(out)@ + int_chars(v as int),
{
    if v < 0 {
        crate::cst::push_char(out, '-');
        let m = if v == i64::MIN {
            9223372036854775808u64
        } else {
            (-v) as u64
        };
        proof {
            assert(m as nat == (-(v as int)) as nat);
        }
        emit_u64(out, m);
        proof {
            assert(out@ =~= old(out)@ + int_chars(v as int));
        }
    } else {
        emit_u64(out, v as u64);
    }
}

/// Writes the printed text of an expression into the buffer.
fn emit_into(out: &mut String, e: &SExp)
    ensures
        final(out)@ == old(out)@ + spec_emit(e@),
    decreases *e,
{
    match e {
        SExp::Identifier(i) => {
            out.append(i.text.as_str());
        },
        SExp::Integer(i) => {
            emit_i64(out, i.value);
        },
        SExp::List(l) => {
            crate::cst::push_char(out, '(');
            let ghost ev = crate::cst::sexp_views(l.elements@);
            let ghost base = out@;
            let mut k: usize = 0;
            while k < l.elements.len()
                invariant
                    k <= l.elements.len(),
                    ev == crate::cst::sexp_views(l.elements@),
                    out@ + spec_emit_elements(ev, k as int) == base + spec_emit_elements(ev, 0),
                decreases l.elements.len() - k,
            {
                proof {
                    crate::measure::lemma_sexp_elements_decrease(*e, k as int);
                }
                if k > 0 {
                    crate::cst::push_char(out, ' ');
                }
                let ghost pre = out@;
                emit_into(out, &l.elements[k]);
                proof {
                    assert(ev[k as int] == crate::cst::sexp_view(l.elements@[k as int]));
                    assert(out@ + spec_emit_elements(ev, k + 1int) =~= base + spec_emit_elements(
                        ev,
                        0,
                    ));
                }
                k = k + 1;
            }
            proof {
                assert(spec_emit_elements(ev, l.elements@.len() as int) =~= Seq::<char>::empty());
                assert(out@ =~= base + spec_emit_elements(ev, 0));
            }
            match &l.tail {
                Some(t) => {
                    crate::cst::push_char(out, ' ');
                    crate::cst::push_char(out, '.');
                    crate::cst::push_char(out, ' ');
                    proof {
                        crate::measure::lemma_sexp_tail_decrease(*e);
                    }
                    emit_into(out, &t.expr);
                },
                None => {},
            }
            crate::cst::push_char(out, ')');
            proof {
                assert(out@ =~= old(out)@ + spec_emit(e@));
            }
        },
    }
}

impl SExp {
    /// The printed text of the expression, per [`spec_emit`].
    pub fn emit_string(&self) -> (r: String)
        ensures
            r@ == spec_emit(self@),
    {
        let mut out = String::new();
        emit_into(&mut out, self);
        proof {
            assert(out@ =~= spec_emit(self@));
        }
        out
    }
}

} // verus!
