//! The VM's initial operand stack and final stack outputs, and the parser
//! that turns lists of decimal strings into field elements.

use vstd::prelude::*;

use crate::codec::{dec_val, parse_u64, u64_str_body, valid_u64_str};
use crate::errors::ParseError;
use crate::field::{is_felt, FIELD_MODULUS};

verus! {

/// The character sequences of a list of strings.
pub open spec fn strings_view(values: Seq<String>) -> Seq<Seq<char>> {
    values.map_values(|s: String| s@)
}

/// Parses a list of decimal strings into field elements, stopping at the
/// first entry that is not a decimal `u64` (`NumberFormatError`) or not a
/// canonical field element (`FieldOverflow`).
pub open spec fn spec_parse_felts(vs: Seq<Seq<char>>) -> Result<Seq<u64>, ParseError>
    decreases vs.len(),
{
    if vs.len() == 0 {
        Ok(Seq::empty())
    } else if !valid_u64_str(vs[0]) {
        Err(ParseError::NumberFormatError)
    } else if dec_val(u64_str_body(vs[0])) >= FIELD_MODULUS {
        Err(ParseError::FieldOverflow)
    } else {
        match spec_parse_felts(vs.drop_first()) {
            Ok(rest) => Ok(seq![dec_val(u64_str_body(vs[0])) as u64] + rest),
            Err(e) => Err(e),
        }
    }
}

proof fn lemma_spec_parse_felts_all_felts(vs: Seq<Seq<char>>)
    requires
        spec_parse_felts(vs) is Ok,
    ensures
        forall|i: int|
            0 <= i < spec_parse_felts(vs)->Ok_0.len() ==> is_felt(
                #[trigger] spec_parse_felts(vs)->Ok_0[i],
            ),
    decreases vs.len(),
{
    if vs.len() > 0 {
        lemma_spec_parse_felts_all_felts(vs.drop_first());
        let rest = spec_parse_felts(vs.drop_first())->Ok_0;
        let whole = spec_parse_felts(vs)->Ok_0;
        crate::codec::lemma_dec_val_nonneg(u64_str_body(vs[0]));
        assert forall|i: int| 0 <= i < whole.len() implies is_felt(#[trigger] whole[i]) by {
            if i == 0 {
                assert(whole[0] == dec_val(u64_str_body(vs[0])) as u64);
                assert(0 <= dec_val(u64_str_body(vs[0])) < FIELD_MODULUS);
            } else {
                assert(whole[i] == rest[i - 1]);
            }
        }
    }
}

/// Parses every string of the list as a field element.
pub fn parse_field_values(values: &Vec<String>) -> (r: Result<Vec<u64>, ParseError>)
    ensures
        match r {
            Ok(v) => spec_parse_felts(strings_view(values@)) == Ok::<Seq<u64>, ParseError>(v@)
                && forall|i: int| 0 <= i < v@.len() ==> is_felt(#[trigger] v@[i]),
            Err(e) => spec_parse_felts(strings_view(values@)) == Err::<Seq<u64>, ParseError>(e),
        },
{
    let ghost vs = strings_view(values@);
    let mut acc: Vec<u64> = Vec::new();
    let mut i: usize = 0;
    proof {
        assert(vs.skip(0) =~= vs);
        if spec_parse_felts(vs) is Ok {
            assert(acc@ + spec_parse_felts(vs)->Ok_0 =~= spec_parse_felts(vs)->Ok_0);
        }
    }
    while i < values.len()
        invariant
            i <= values.len(),
            vs == strings_view(values@),
            vs.len() == values@.len(),
            acc@.len() == i,
            forall|k: int| 0 <= k < i ==> is_felt(#[trigger] acc@[k]),
            spec_parse_felts(vs) == match spec_parse_felts(vs.skip(i as int)) {
                Ok(rest) => Ok::<Seq<u64>, ParseError>(acc@ + rest),
                Err(e) => Err::<Seq<u64>, ParseError>(e),
            },
        decreases values.len() - i,
    {
        proof {
            assert(vs.skip(i as int)[0] == vs[i as int]);
            assert(vs.skip(i as int).drop_first() =~= vs.skip(i as int + 1));
            assert(vs[i as int] == values@[i as int]@);
        }
        let v = match parse_u64(&values[i]) {
            Ok(v) => v,
            Err(e) => {
                return Err(e);
            },
        };
        if v >= FIELD_MODULUS {
            return Err(ParseError::FieldOverflow);
        }
        let ghost acc0 = acc@;
        acc.push(v);
        proof {
            assert(valid_u64_str(vs[i as int]));
            assert(v as int == dec_val(u64_str_body(vs[i as int])));
            assert(acc@ =~= acc0 + seq![v]);
            assert(seq![v] =~= seq![dec_val(u64_str_body(vs.skip(i as int)[0])) as u64]);
            match spec_parse_felts(vs.skip(i as int + 1)) {
                Ok(rest) => {
                    assert(spec_parse_felts(vs.skip(i as int)) == Ok::<Seq<u64>, ParseError>(
                        seq![dec_val(u64_str_body(vs.skip(i as int)[0])) as u64] + rest,
                    ));
                    assert(spec_parse_felts(vs) == Ok::<Seq<u64>, ParseError>(
                        acc0 + (seq![v] + rest),
                    ));
                    assert(acc0 + (seq![v] + rest) =~= acc@ + rest);
                },
                Err(e) => {
                    assert(spec_parse_felts(vs.skip(i as int)) == Err::<Seq<u64>, ParseError>(e));
                    assert(spec_parse_felts(vs) == Err::<Seq<u64>, ParseError>(e));
                },
            }
        }
        i += 1;
    }
    proof {
        assert(vs.skip(i as int) =~= Seq::<Seq<char>>::empty());
        assert(acc@ + Seq::<u64>::empty() =~= acc@);
    }
    Ok(acc)
}

/// A copy of a list of values.
pub fn clone_u64_vec(values: &Vec<u64>) -> (r: Vec<u64>)
    ensures
        r@ == values@,
{
    let mut out: Vec<u64> = Vec::new();
    let mut i: usize = 0;
    while i < values.len()
        invariant
            i <= values.len(),
            out@ =~= values@.subrange(0, i as int),
        decreases values.len() - i,
    {
        out.push(values[i]);
        proof {
            assert(out@ =~= values@.subrange(0, i as int + 1));
        }
        i += 1;
    }
    proof {
        assert(out@ =~= values@);
    }
    out
}

/// The VM's initial operand stack.
///
/// The first element of `elements` is the top of the stack: the parser
/// keeps the source order exactly, so the first listed operand string
/// becomes the top element.
pub struct StackInputs {
    pub elements: Vec<u64>,
}

impl StackInputs {
    /// Every element is a canonical field element.
    pub open spec fn wf(&self) -> bool {
        forall|i: int| 0 <= i < self.elements@.len() ==> is_felt(#[trigger] self.elements@[i])
    }

    /// The default initial stack: a single zero element, since the VM
    /// always begins with at least one populated stack slot.
    pub fn default_stack() -> (r: StackInputs)
        ensures
            r.wf(),
            r.elements@ =~= seq![0u64],
    {
        let mut elements: Vec<u64> = Vec::new();
        elements.push(0);
        StackInputs { elements }
    }
}

/// Parses the initial operand stack from a list of decimal strings, top
/// element first. An empty list yields the default single-zero stack.
pub fn parse_stack_values(values: &Vec<String>) -> (r: Result<StackInputs, ParseError>)
    ensures
        match r {
            Ok(si) => si.wf() && (if values@.len() == 0 {
                si.elements@ =~= seq![0u64]
            } else {
                spec_parse_felts(strings_view(values@)) == Ok::<Seq<u64>, ParseError>(si.elements@)
            }),
            Err(e) => values@.len() > 0 && spec_parse_felts(strings_view(values@)) == Err::<
                Seq<u64>,
                ParseError,
            >(e),
        },
{
    if values.len() == 0 {
        return Ok(StackInputs::default_stack());
    }
    let elements = parse_field_values(values)?;
    Ok(StackInputs { elements })
}

/// The stack left by a finished program, together with the overflow-table
/// addresses: the pair a verifier replays against a proof.
pub struct StackOutputs {
    pub stack: Vec<u64>,
    pub overflow_addrs: Vec<u64>,
}

impl StackOutputs {
    /// A new value from the two flat sequences.
    pub fn new(stack: Vec<u64>, overflow_addrs: Vec<u64>) -> (r: StackOutputs)
        ensures
            r.stack@ == stack@,
            r.overflow_addrs@ == overflow_addrs@,
    {
        StackOutputs { stack, overflow_addrs }
    }

    /// The stack values, top first.
    pub fn stack(&self) -> (r: &Vec<u64>)
        ensures
            r@ == self.stack@,
    {
        &self.stack
    }

    /// The overflow-table addresses.
    pub fn overflow_addrs(&self) -> (r: &Vec<u64>)
        ensures
            r@ == self.overflow_addrs@,
    {
        &self.overflow_addrs
    }
}

} // verus!
