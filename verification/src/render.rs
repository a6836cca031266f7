//! Rendering of device records into output lines: the brief path-only form
//! and the full fixed-width tabular form.

use vstd::prelude::*;
use vstd::string::*;
use crate::device::DiskInfo;

verus! {

/// What `console::pad_str` makes of `s` at column width `width`, with left
/// alignment, space padding and single-ellipsis truncation.  The result
/// depends on the characters and the width alone.
pub uninterp spec fn padded_of(s: Seq<char>, width: usize) -> Seq<char>;

/// What `bytesize::to_string` with binary prefixes makes of a byte count.
/// The result depends on the count alone.
pub uninterp spec fn human_size_of(bytes: u64) -> Seq<char>;

/// Relies on `console::pad_str`: left-aligns `s` in a column of `width`
/// cells, padding with spaces or truncating with a single ellipsis.
#[verifier::external_body]
fn pad_field(s: &str, width: usize) -> (r: String)
    ensures
        r@ == padded_of(s@, width),
{
    console::pad_str(s, width, console::Alignment::Left, Some("…")).into_owned()
}

/// Relies on `bytesize::to_string` with `si_prefix` set: renders a byte
/// count in human-readable binary-prefix units.
#[verifier::external_body]
fn human_size(bytes: u64) -> (r: String)
    ensures
        r@ == human_size_of(bytes),
{
    bytesize::to_string(bytes, true)
}

/// The removability column label.
pub open spec fn removable_label_spec(is_removable: bool) -> Seq<char> {
    if is_removable {
        "removable"@
    } else {
        "fixed"@
    }
}

fn removable_label(is_removable: bool) -> (r: &'static str)
    ensures
        r@ == removable_label_spec(is_removable),
{
    if is_removable {
        "removable"
    } else {
        "fixed"
    }
}

/// The brief output form: the device path alone, no padding.
pub open spec fn brief_line_spec(d: DiskInfo) -> Seq<char> {
    "/dev/"@ + d.device_name@
}

/// The full output form: the device path and then the human-readable size,
/// the model string and the removability label, each left-aligned in its
/// fixed-width column, separated by single spaces.
pub open spec fn full_line_spec(d: DiskInfo) -> Seq<char> {
    "/dev/"@ + padded_of(d.device_name@, 10) + " "@ + padded_of(human_size_of(d.size_bytes), 10)
        + " "@ + padded_of(d.model_name@, 14) + " "@ + padded_of(
        removable_label_spec(d.is_removable),
        10,
    )
}

/// The output line for one record under the selected form.
pub open spec fn line_spec(d: DiskInfo, brief: bool) -> Seq<char> {
    if brief {
        brief_line_spec(d)
    } else {
        full_line_spec(d)
    }
}

/// Renders one record into its output line, exactly as `line_spec` states.
pub fn render_line(d: &DiskInfo, brief: bool) -> (r: String)
    ensures
        r@ == line_spec(*d, brief),
{
    let prefix: &str = "/dev/";
    if brief {
        let mut line = prefix.to_owned();
        line.append(d.device_name.as_str());
        line
    } else {
        let mut line = prefix.to_owned();
        let name_col = pad_field(d.device_name.as_str(), 10);
        let size_text = human_size(d.size_bytes);
        let size_col = pad_field(size_text.as_str(), 10);
        let model_col = pad_field(d.model_name.as_str(), 14);
        let rem_col = pad_field(removable_label(d.is_removable), 10);
        let sep: &str = " ";
        line.append(name_col.as_str());
        line.append(sep);
        line.append(size_col.as_str());
        line.append(sep);
        line.append(model_col.as_str());
        line.append(sep);
        line.append(rem_col.as_str());
        line
    }
}

/// Renders every record, in order, into its output line.
pub fn render_lines(records: &Vec<DiskInfo>, brief: bool) -> (r: Vec<String>)
    ensures
        r@.len() == records@.len(),
        forall|i: int| 0 <= i < records@.len() ==> r@[i]@ == line_spec(records@[i], brief),
{
    let mut out: Vec<String> = Vec::new();
    let mut i: usize = 0;
    while i < records.len()
        invariant
            0 <= i <= records@.len(),
            out@.len() == i,
            forall|k: int| 0 <= k < i ==> out@[k]@ == line_spec(records@[k], brief),
        decreases records@.len() - i,
    {
        let line = render_line(&records[i], brief);
        out.push(line);
        i = i + 1;
    }
    out
}

} // verus!
