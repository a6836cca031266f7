//! The device record: one entry per discovered block device, assembled from
//! the outcomes of the per-device attribute reads.

use vstd::prelude::*;
use vstd::string::*;
use crate::attr::{AttrError, AttrOutcome, numeric_attr, numeric_result, string_attr};
use crate::text::trim_spec;

verus! {

/// Number of bytes in one raw block of a device's size attribute.
pub const BYTES_PER_BLOCK: u64 = 512;

/// One discovered block device.  All fields are fixed at construction.
#[derive(Debug)]
pub struct DiskInfo {
    /// Base name of the device's directory; never empty.
    pub device_name: String,
    /// Capacity in bytes: the raw block count times `BYTES_PER_BLOCK`.
    pub size_bytes: u64,
    /// Vendor/model string, or the `[UNKNOWN]` sentinel when the model
    /// attribute is missing or unreadable.
    pub model_name: String,
    /// Whether the removable attribute read exactly 1.
    pub is_removable: bool,
    /// True when the device's directory lacks a child entry named `loop`,
    /// and false when the child listing itself failed.  The name follows
    /// the filtering behaviour, which is the authoritative contract: the
    /// non-loop-only filter keeps exactly the records with this flag set.
    pub non_loop: bool,
}

impl DiskInfo {
    /// Record well-formedness: the identity of a record is its name, which
    /// is never empty.
    pub open spec fn wf(self) -> bool {
        self.device_name@.len() > 0
    }
}

impl Clone for DiskInfo {
    fn clone(&self) -> (r: Self)
        ensures
            r == *self,
    {
        DiskInfo {
            device_name: self.device_name.clone(),
            size_bytes: self.size_bytes,
            model_name: self.model_name.clone(),
            is_removable: self.is_removable,
            non_loop: self.non_loop,
        }
    }
}

/// The caller-supplied configuration: the inclusion filters, the
/// exactly-one-match constraint and the output form.
#[derive(Clone, Copy, Debug, PartialEq, Eq, Structural)]
pub struct Config {
    /// Exclude records whose `non_loop` flag is unset.
    pub non_loop_only: bool,
    /// Exclude records that are not removable.
    pub removable_only: bool,
    /// Require exactly one record to survive filtering.
    pub expect_one: bool,
    /// Print only the device path.
    pub brief: bool,
}

/// The sentinel that stands in for a missing or unreadable model string.
pub open spec fn unknown_model_spec() -> Seq<char> {
    "[UNKNOWN]"@
}

/// The `[UNKNOWN]` sentinel as a value.
pub fn unknown_model() -> (r: String)
    ensures
        r@ == unknown_model_spec(),
{
    let s: &str = "[UNKNOWN]";
    s.to_owned()
}

/// The model string a record carries for a given model-attribute read:
/// the trimmed contents, or the sentinel on any failure — never an empty
/// stand-in and never a partial read.
pub open spec fn model_of(model_attr: AttrOutcome) -> Seq<char> {
    match model_attr {
        AttrOutcome::Content(s) => trim_spec(s@),
        _ => unknown_model_spec(),
    }
}

/// Substitutes the sentinel for any failed model read.
pub fn model_or_sentinel(model: Result<String, AttrError>) -> (r: String)
    ensures
        model matches Ok(s) ==> r == s,
        model is Err ==> r@ == unknown_model_spec(),
{
    match model {
        Ok(s) => s,
        Err(_) => unknown_model(),
    }
}

/// The non-loop flag for a device whose directory listing produced
/// `children`: set exactly when the listing succeeded and no child entry is
/// literally named `loop`.  A failed listing leaves the flag unset.
pub open spec fn non_loop_of(children: Option<Vec<String>>) -> bool {
    match children {
        Some(names) => !(exists|i: int| 0 <= i < names@.len() && names@[i]@ == "loop"@),
        None => false,
    }
}

/// Computes the non-loop flag from the device directory's child names, as
/// `non_loop_of` states it.
pub fn non_loop_status(children: &Option<Vec<String>>) -> (r: bool)
    ensures
        r == non_loop_of(*children),
{
    match children {
        Option::Some(names) => {
            let needle_str: &str = "loop";
            let needle: String = needle_str.to_owned();
            let mut i: usize = 0;
            let mut found: bool = false;
            while i < names.len()
                invariant
                    needle@ == "loop"@,
                    0 <= i <= names@.len(),
                    found == exists|k: int| 0 <= k < i && names@[k]@ == "loop"@,
                decreases names@.len() - i,
            {
                if names[i].eq(&needle) {
                    found = true;
                }
                i = i + 1;
            }
            !found
        },
        Option::None => false,
    }
}

/// Why no record could be assembled for a device.  Size and removable are
/// mandatory attributes: their failure is fatal for the invocation.
pub enum BuildError {
    /// The size attribute could not be produced.
    SizeUnavailable(AttrError),
    /// The raw block count times `BYTES_PER_BLOCK` does not fit in 64 bits.
    SizeOverflow,
    /// The removable attribute could not be produced.
    RemovableUnreadable(AttrError),
    /// The removable attribute read a number other than 0 or 1.
    RemovableInvalid(u64),
}

/// Assembles the record for one device from its raw attribute reads.
///
/// The size attribute must parse and, scaled to bytes, fit in 64 bits; the
/// removable attribute must read exactly 0 or 1; a size failure is reported
/// ahead of a removable failure.  The model attribute degrades to the
/// sentinel.  On success every field is exactly determined by the inputs:
/// in particular `size_bytes` is the raw block count times
/// `BYTES_PER_BLOCK`, exactly.
pub fn build_record(
    device_name: String,
    size_attr: AttrOutcome,
    model_attr: AttrOutcome,
    removable_attr: AttrOutcome,
    children: Option<Vec<String>>,
) -> (r: Result<DiskInfo, BuildError>)
    requires
        device_name@.len() > 0,
    ensures
        ({
            let size_r = numeric_result(size_attr);
            let rem_r = numeric_result(removable_attr);
            match r {
                Ok(d) => {
                    &&& size_r matches Ok(raw)
                    &&& raw * BYTES_PER_BLOCK <= u64::MAX
                    &&& rem_r matches Ok(rem)
                    &&& (rem == 0 || rem == 1)
                    &&& d.device_name == device_name
                    &&& d.size_bytes == raw * BYTES_PER_BLOCK
                    &&& d.model_name@ == model_of(model_attr)
                    &&& d.is_removable == (rem == 1)
                    &&& d.non_loop == non_loop_of(children)
                    &&& d.wf()
                },
                Err(e) => match e {
                    BuildError::SizeUnavailable(ae) => size_r == Err::<u64, AttrError>(ae),
                    BuildError::SizeOverflow => size_r matches Ok(raw) && raw * BYTES_PER_BLOCK
                        > u64::MAX,
                    BuildError::RemovableUnreadable(ae) => size_r is Ok && (size_r->Ok_0
                        * BYTES_PER_BLOCK <= u64::MAX) && rem_r == Err::<u64, AttrError>(ae),
                    BuildError::RemovableInvalid(v) => size_r is Ok && (size_r->Ok_0
                        * BYTES_PER_BLOCK <= u64::MAX) && rem_r == Ok::<u64, AttrError>(v) && v
                        >= 2,
                },
            }
        }),
{
    let raw = match numeric_attr(&size_attr) {
        Ok(raw) => raw,
        Err(e) => {
            return Err(BuildError::SizeUnavailable(e));
        },
    };
    if raw > u64::MAX / BYTES_PER_BLOCK {
        proof {
            assert(raw * BYTES_PER_BLOCK > u64::MAX) by (nonlinear_arith)
                requires
                    raw > u64::MAX / 512,
            ;
        }
        return Err(BuildError::SizeOverflow);
    }
    proof {
        assert(raw * BYTES_PER_BLOCK <= u64::MAX) by (nonlinear_arith)
            requires
                raw <= u64::MAX / 512,
        ;
    }
    let size_bytes = raw * BYTES_PER_BLOCK;
    let model_name = model_or_sentinel(string_attr(&model_attr));
    let rem = match numeric_attr(&removable_attr) {
        Ok(v) => v,
        Err(e) => {
            return Err(BuildError::RemovableUnreadable(e));
        },
    };
    let is_removable = match rem {
        0 => false,
        1 => true,
        _ => {
            return Err(BuildError::RemovableInvalid(rem));
        },
    };
    let non_loop = non_loop_status(&children);
    Ok(DiskInfo { device_name, size_bytes, model_name, is_removable, non_loop })
}

} // verus!
