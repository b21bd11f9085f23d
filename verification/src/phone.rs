//! Parsing one line of a process-based device listing.
//!
//! The listing's columns are separated by spaces, with a carriage return
//! possibly closing the line. A line names a device when a separator
//! follows the first column: the first column is the serial, the second
//! the state. Consecutive separators make an empty column, kept as such.

use vstd::prelude::*;
use vstd::string::StrSliceExecFns;
use vstd::string::StringExecFns;

use crate::text::str_eq;

verus! {

/// Whether a character separates the columns of a listing line.
pub open spec fn is_dev_sep(c: char) -> bool {
    c == ' ' || c == '\r'
}

/// The position of the first column separator at or after `from`, or the
/// line's end where none follows.
pub open spec fn sep_end(s: Seq<char>, from: int) -> int
    decreases s.len() - from,
{
    if from < 0 || from >= s.len() {
        s.len() as int
    } else if is_dev_sep(s[from]) {
        from
    } else {
        sep_end(s, from + 1)
    }
}

/// One attached device as the process-based listing reports it.
#[derive(Debug, Clone)]
pub struct Device {
    pub serial: String,
    pub state: String,
}

impl Default for Device {
    fn default() -> (r: Device)
        ensures
            r.serial@ == Seq::<char>::empty(),
            r.state@ == Seq::<char>::empty(),
    {
        Device { serial: String::new(), state: String::new() }
    }
}

impl PartialEq for Device {
    fn eq(&self, o: &Device) -> (r: bool) {
        str_eq(self.serial.as_str(), o.serial.as_str()) && str_eq(
            self.state.as_str(),
            o.state.as_str(),
        )
    }
}

impl vstd::std_specs::cmp::PartialEqSpecImpl for Device {
    open spec fn obeys_eq_spec() -> bool {
        true
    }

    open spec fn eq_spec(&self, o: &Device) -> bool {
        self.serial@ == o.serial@ && self.state@ == o.state@
    }
}

impl Eq for Device {

}

/// The position of the first column separator at or after `from`.
fn find_sep(line: &str, from: usize) -> (r: usize)
    requires
        from <= line@.len(),
    ensures
        r == sep_end(line@, from as int),
        from <= r <= line@.len(),
{
    let len = line.unicode_len();
    let mut i = from;
    while i < len
        invariant
            from <= i <= len,
            len == line@.len(),
            sep_end(line@, from as int) == sep_end(line@, i as int),
        decreases len - i,
    {
        let c = line.get_char(i);
        if Device::is_space(c) {
            return i;
        }
        i = i + 1;
    }
    i
}

impl Device {
    /// Whether a character separates the listing's columns.
    pub fn is_space(ch: char) -> (r: bool)
        ensures
            r == is_dev_sep(ch),
    {
        ch == ' ' || ch == '\r'
    }

    /// Parses one listing line: the first column is the serial, the
    /// second the state, and a line with no separator after the first
    /// column names no device.
    pub fn new(line: &str) -> (r: Option<Device>)
        ensures
            match r {
                Some(d) => {
                    &&& sep_end(line@, 0) < line@.len()
                    &&& d.serial@ == line@.take(sep_end(line@, 0))
                    &&& d.state@ == line@.subrange(
                        sep_end(line@, 0) + 1,
                        sep_end(line@, sep_end(line@, 0) + 1),
                    )
                },
                None => sep_end(line@, 0) == line@.len(),
            },
    {
        let len = line.unicode_len();
        let e0 = find_sep(line, 0);
        if e0 == len {
            return None;
        }
        let e1 = find_sep(line, e0 + 1);
        let serial = String::from_str(line.substring_char(0, e0));
        let state = String::from_str(line.substring_char(e0 + 1, e1));
        Some(Device { serial, state })
    }
}

} // verus!
