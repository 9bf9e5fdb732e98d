//! The text of a map or a set for debugging: the entries between braces, separated by
//! commas, each piece as `Debug` writes it.
use std::fmt::Debug;
use vstd::prelude::*;
use vstd::string::StringExecFns;

verus! {

/// `format!("{:?}", value)`: the text that the value's `Debug` gives. Nothing is claimed of
/// it, since `Debug` is whatever the type of the value makes it.
#[verifier::external_body]
pub(crate) fn debug_piece<T: Debug>(value: &T) -> (text: String) {
    format!("{:?}", value)
}

/// The texts of the entries of a map, each as `key: value`, separated by commas.
pub open spec fn entries_layout(parts: Seq<(Seq<char>, Seq<char>)>) -> Seq<char>
    decreases parts.len(),
{
    if parts.len() == 0 {
        Seq::empty()
    } else if parts.len() == 1 {
        parts[0].0 + seq![':', ' '] + parts[0].1
    } else {
        entries_layout(parts.drop_last()) + seq![',', ' '] + parts.last().0 + seq![':', ' ']
            + parts.last().1
    }
}

/// The text of a map whose keys and values have the texts `parts`.
pub open spec fn map_layout(parts: Seq<(Seq<char>, Seq<char>)>) -> Seq<char> {
    seq!['{'] + entries_layout(parts) + seq!['}']
}

/// The texts of the values of a set, separated by commas.
pub open spec fn values_layout(parts: Seq<Seq<char>>) -> Seq<char>
    decreases parts.len(),
{
    if parts.len() == 0 {
        Seq::empty()
    } else if parts.len() == 1 {
        parts[0]
    } else {
        values_layout(parts.drop_last()) + seq![',', ' '] + parts.last()
    }
}

/// The text of a set whose values have the texts `parts`.
pub open spec fn set_layout(parts: Seq<Seq<char>>) -> Seq<char> {
    seq!['{'] + values_layout(parts) + seq!['}']
}

/// Adds the text of one more entry to the text of the entries before it, which are
/// `parts`; `first` says that there are none.
pub(crate) fn append_entry(
    text: &mut String,
    key: &String,
    value: &String,
    first: bool,
    Ghost(parts): Ghost<Seq<(Seq<char>, Seq<char>)>>,
)
    requires
        old(text)@ == seq!['{'] + entries_layout(parts),
        first == (parts.len() == 0),
    ensures
        final(text)@ == seq!['{'] + entries_layout(parts.push((key@, value@))),
{
    proof {
        reveal_strlit(", ");
        reveal_strlit(": ");
        assert(", "@ =~= seq![',', ' ']);
        assert(": "@ =~= seq![':', ' ']);
        assert(parts.push((key@, value@)).drop_last() =~= parts);
    }
    if !first {
        text.append(", ");
    }
    text.append(key.as_str());
    text.append(": ");
    text.append(value.as_str());
    assert(text@ =~= seq!['{'] + entries_layout(parts.push((key@, value@))));
}

/// Adds the text of one more value to the text of the values before it, which are
/// `parts`; `first` says that there are none.
pub(crate) fn append_value(
    text: &mut String,
    value: &String,
    first: bool,
    Ghost(parts): Ghost<Seq<Seq<char>>>,
)
    requires
        old(text)@ == seq!['{'] + values_layout(parts),
        first == (parts.len() == 0),
    ensures
        final(text)@ == seq!['{'] + values_layout(parts.push(value@)),
{
    proof {
        reveal_strlit(", ");
        assert(", "@ =~= seq![',', ' ']);
        assert(parts.push(value@).drop_last() =~= parts);
    }
    if !first {
        text.append(", ");
    }
    text.append(value.as_str());
    assert(text@ =~= seq!['{'] + values_layout(parts.push(value@)));
}

/// The text `{`, with which the text of a map or a set begins.
pub(crate) fn open_brace() -> (text: String)
    ensures
        text@ == seq!['{'],
{
    proof {
        reveal_strlit("{");
        assert("{"@ =~= seq!['{']);
    }
    String::from_str("{")
}

/// Ends the text of a map or a set with `}`.
pub(crate) fn close_brace(text: &mut String)
    ensures
        final(text)@ == old(text)@ + seq!['}'],
{
    proof {
        reveal_strlit("}");
        assert("}"@ =~= seq!['}']);
    }
    text.append("}");
}

} // verus!
