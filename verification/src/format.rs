//! Text form of a buffer: its elements in logical order, separated by commas, in
//! square brackets.

use crate::buffer::GapBuffer;
use core::fmt::Debug;
use vstd::prelude::*;
use vstd::string::StringExecFns;

verus! {

/// The texts in `parts`, in order, with a comma between neighbours.
pub open spec fn comma_separated(parts: Seq<Seq<char>>) -> Seq<char>
    decreases parts.len(),
{
    if parts.len() == 0 {
        Seq::empty()
    } else if parts.len() == 1 {
        parts[0]
    } else {
        comma_separated(parts.drop_last()) + seq![','] + parts.last()
    }
}

/// The texts in `parts`, comma-separated, between `[` and `]`.
pub open spec fn bracketed(parts: Seq<Seq<char>>) -> Seq<char> {
    seq!['['] + comma_separated(parts) + seq![']']
}

/// The views of the strings in `parts`.
pub open spec fn texts(parts: Seq<String>) -> Seq<Seq<char>> {
    Seq::new(parts.len(), |i: int| parts[i]@)
}

/// `std`'s `Formatter`, the sink that text is written to.
#[verifier::external_type_specification]
#[verifier::external_body]
pub struct ExFormatter<'a>(core::fmt::Formatter<'a>);

/// `std`'s `fmt::Error`, which a sink hands back when it cannot take the text.
#[verifier::external_type_specification]
#[verifier::external_body]
pub struct ExFmtError(core::fmt::Error);

/// `Formatter::write_str`: hands `text` to the sink. Whether the sink takes it is the
/// sink's affair; nothing is claimed of the result.
#[verifier::external_body]
fn write_text(sink: &mut core::fmt::Formatter<'_>, text: &str) -> (done: Result<
    (),
    core::fmt::Error,
>) {
    sink.write_str(text)
}

/// `std`'s `format!` with `{:?}`: the text that the element's `Debug` implementation
/// writes. Nothing is claimed of that text.
#[verifier::external_body]
fn debug_text<T: Debug>(element: &T) -> (text: String) {
    format!("{:?}", element)
}

/// Joins the texts in `parts` with commas and encloses them in square brackets.
pub fn bracket(parts: &Vec<String>) -> (text: String)
    ensures
        text@ == bracketed(texts(parts@)),
{
    let mut text = String::new();
    proof {
        reveal_strlit("[");
        reveal_strlit(",");
        reveal_strlit("]");
    }
    let mut i: usize = 0;
    while i < parts.len()
        invariant
            i <= parts.len(),
            text@ == comma_separated(texts(parts@).subrange(0, i as int)),
            ","@ == seq![','],
        decreases parts.len() - i,
    {
        let ghost before = texts(parts@).subrange(0, i as int);
        let ghost after = texts(parts@).subrange(0, i + 1);
        proof {
            assert(after.drop_last() =~= before);
            assert(after.last() == parts@[i as int]@);
        }
        if i > 0 {
            text.append(",");
        }
        text.append(parts[i].as_str());
        proof {
            if i == 0 {
                assert(text@ =~= comma_separated(after));
            }
        }
        i = i + 1;
    }
    assert(texts(parts@).subrange(0, i as int) =~= texts(parts@));
    let mut whole = String::from_str("[");
    whole.append(text.as_str());
    whole.append("]");
    whole
}

impl<T: Debug> GapBuffer<T> {
    /// The buffer as text: `[`, the text of each element in logical order with commas
    /// between them, `]`.
    pub fn to_debug_string(&self) -> (text: String)
        ensures
            exists|parts: Seq<Seq<char>>|
                parts.len() == self@.len() && text@ == #[trigger] bracketed(parts),
    {
        let mut parts: Vec<String> = Vec::new();
        let mut i: usize = 0;
        while i < self.len()
            invariant
                i <= self@.len(),
                parts.len() == i,
            decreases self@.len() - i,
        {
            parts.push(debug_text(&self[i]));
            i = i + 1;
        }
        let text = bracket(&parts);
        assert(texts(parts@).len() == self@.len());
        text
    }
}

impl<T: Debug> Debug for GapBuffer<T> {
    /// Writes the text of [`GapBuffer::to_debug_string`] to `sink`.
    fn fmt(&self, sink: &mut core::fmt::Formatter<'_>) -> (done: Result<(), core::fmt::Error>) {
        let text = self.to_debug_string();
        write_text(sink, text.as_str())
    }
}

} // verus!
