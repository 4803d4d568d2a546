//! Deterministic line formatting: left-aligned padding of rule names, the
//! shape of an entry line, and the shape of the report's header line.

use vstd::prelude::*;
use vstd::string::*;

verus! {

/// A run of `n` space characters.
pub open spec fn spaces(n: nat) -> Seq<char>
    decreases n,
{
    if n == 0 {
        Seq::empty()
    } else {
        spaces((n - 1) as nat).push(' ')
    }
}

pub proof fn lemma_spaces_len(n: nat)
    ensures
        spaces(n).len() == n,
    decreases n,
{
    if n > 0 {
        lemma_spaces_len((n - 1) as nat);
    }
}

/// `name` left-aligned in a field of `width` characters; a name longer than
/// the field is kept whole.
pub open spec fn pad_name(name: Seq<char>, width: nat) -> Seq<char> {
    if name.len() >= width {
        name
    } else {
        name + spaces((width - name.len()) as nat)
    }
}

/// One report entry line: the rules-source label, a slash, the rule name
/// padded to `longest + 4` characters, then the status text.
pub open spec fn entry_line(label: Seq<char>, name: Seq<char>, longest: nat, text: Seq<char>) -> Seq<char> {
    label + "/"@ + pad_name(name, longest + 4) + text
}

/// The report's first line: the data-source label and the overall status.
pub open spec fn header_line(data_label: Seq<char>, text: Seq<char>) -> Seq<char> {
    data_label + " Status = "@ + text
}

/// `name` left-aligned in a field of `width` characters.
pub fn pad_to(name: &str, width: usize) -> (r: String)
    ensures
        r@ == pad_name(name@, width as nat),
{
    let mut r = String::from_str(name);
    let mut n: usize = name.unicode_len();
    proof {
        assert(r@ =~= name@ + spaces(0));
    }
    while n < width
        invariant
            name@.len() <= n,
            n <= width || n == name@.len(),
            r@ == name@ + spaces((n - name@.len()) as nat),
        decreases width - n,
    {
        r.append(" ");
        proof {
            reveal_strlit(" ");
            assert(r@ =~= name@ + spaces((n + 1 - name@.len()) as nat));
        }
        n = n + 1;
    }
    proof {
        if name@.len() >= width {
            assert(r@ =~= name@);
        }
    }
    r
}

/// Builds one entry line; the padding width is the longest rule name of the
/// report plus four.
pub fn format_entry(label: &str, name: &str, longest: usize, text: &str) -> (r: String)
    requires
        longest + 4 <= usize::MAX,
    ensures
        r@ == entry_line(label@, name@, longest as nat, text@),
{
    let mut r = String::from_str(label);
    r.append("/");
    let padded = pad_to(name, longest + 4);
    r.append(padded.as_str());
    r.append(text);
    proof {
        assert(r@ =~= entry_line(label@, name@, longest as nat, text@));
    }
    r
}

/// Builds the report's header line.
pub fn format_header(data_label: &str, text: &str) -> (r: String)
    ensures
        r@ == header_line(data_label@, text@),
{
    let mut r = String::from_str(data_label);
    r.append(" Status = ");
    r.append(text);
    proof {
        assert(r@ =~= header_line(data_label@, text@));
    }
    r
}

} // verus!
