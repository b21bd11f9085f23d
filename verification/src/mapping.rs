//! Forward/reverse mapping endpoints and the `local;remote` wire grammar.
//!
//! An endpoint is either a TCP port or a named local-socket identifier.
//! Parsing tries the integer reading first and only then falls back to the
//! named form: a purely numeric identifier is never treated as a named
//! socket. Listing responses carry one mapping per line; the token order
//! of reverse listings is deliberately swapped against forward listings.

use vstd::prelude::*;
use vstd::string::StrSliceExecFns;
use vstd::string::StringExecFns;

use crate::lines::lines_tokens;
use crate::lines::tokenize_lines;
use crate::text::dec_parse_ok;
use crate::text::dec_str;
use crate::text::digits_val;
use crate::text::lemma_dec_round_trip;
use crate::text::parse_decimal_u32;
use crate::text::str_eq;
use crate::text::u32_to_decimal;

verus! {

/// The spec-level shape of a mapping endpoint.
pub enum MappingView {
    Ipc(Seq<char>),
    Port(u32),
}

/// A mapping endpoint: a TCP port, or a named local-socket identifier.
#[derive(Debug)]
pub enum MappingType {
    /// A named local-socket identifier.
    Ipc(String),
    /// A TCP port.
    Port(u32),
}

impl View for MappingType {
    type V = MappingView;

    open spec fn view(&self) -> MappingView {
        match self {
            MappingType::Ipc(s) => MappingView::Ipc(s@),
            MappingType::Port(p) => MappingView::Port(*p),
        }
    }
}

/// The endpoint named by a wire token: a port exactly when the token is
/// entirely decimal digits whose value fits 32 bits, the token verbatim as
/// a named socket otherwise.
pub open spec fn mapping_of(s: Seq<char>) -> MappingView {
    if dec_parse_ok(s) {
        MappingView::Port(digits_val(s) as u32)
    } else {
        MappingView::Ipc(s)
    }
}

/// The wire text of an endpoint: the decimal port number, or the named
/// socket identifier verbatim.
pub open spec fn mapping_render(v: MappingView) -> Seq<char> {
    match v {
        MappingView::Port(n) => dec_str(n as int),
        MappingView::Ipc(s) => s,
    }
}

/// Whether an endpoint can stand on the wire as written: every port can,
/// and a named socket can unless its name reads as a decimal port.
pub open spec fn wire_faithful(v: MappingView) -> bool {
    match v {
        MappingView::Port(_) => true,
        MappingView::Ipc(s) => !dec_parse_ok(s),
    }
}

impl MappingType {
    /// Parses a wire token, trying the integer reading first and falling
    /// back to the named-socket form.
    pub fn parse(s: &str) -> (r: Self)
        ensures
            r@ == mapping_of(s@),
    {
        match parse_decimal_u32(s) {
            Some(n) => MappingType::Port(n),
            None => MappingType::Ipc(String::from_str(s)),
        }
    }

    /// Renders the endpoint back to its wire text.
    pub fn render(&self) -> (r: String)
        ensures
            r@ == mapping_render(self@),
    {
        match self {
            MappingType::Port(n) => u32_to_decimal(*n),
            MappingType::Ipc(s) => s.clone(),
        }
    }
}

impl PartialEq for MappingType {
    fn eq(&self, o: &MappingType) -> (r: bool) {
        match (self, o) {
            (MappingType::Port(a), MappingType::Port(b)) => *a == *b,
            (MappingType::Ipc(x), MappingType::Ipc(y)) => str_eq(x.as_str(), y.as_str()),
            _ => false,
        }
    }
}

impl vstd::std_specs::cmp::PartialEqSpecImpl for MappingType {
    open spec fn obeys_eq_spec() -> bool {
        true
    }

    open spec fn eq_spec(&self, o: &MappingType) -> bool {
        self@ == o@
    }
}

impl Eq for MappingType {

}

/// Rendering a parsed endpoint back to wire form reproduces the token, and
/// reparsing a rendered endpoint reproduces the endpoint: for every port,
/// and for every named socket whose name is not itself a decimal port, the
/// codec round-trips exactly.
pub proof fn lemma_mapping_round_trip(v: MappingView)
    requires
        wire_faithful(v),
    ensures
        mapping_of(mapping_render(v)) == v,
{
    match v {
        MappingView::Port(n) => {
            lemma_dec_round_trip(n as int);
        },
        MappingView::Ipc(s) => {
        },
    }
}

/// One registered traffic redirection: an optional owning device serial, a
/// local endpoint and a remote endpoint. Forward registrations always name
/// a serial; reverse ones may not.
#[derive(Debug)]
pub struct MappingDevice {
    pub serial: Option<String>,
    pub local: MappingType,
    pub remote: MappingType,
}

impl MappingDevice {
    /// Builds a mapping entry from its wire tokens. Parsing a token never
    /// fails: anything not a port is a named socket.
    pub fn new(serial: Option<String>, local: &str, remote: &str) -> (r: Self)
        ensures
            r.serial == serial,
            r.local@ == mapping_of(local@),
            r.remote@ == mapping_of(remote@),
    {
        let local_type = MappingType::parse(local);
        let remote_type = MappingType::parse(remote);
        MappingDevice { serial, local: local_type, remote: remote_type }
    }
}

impl PartialEq for MappingDevice {
    fn eq(&self, o: &MappingDevice) -> (r: bool) {
        let serial_eq = match (&self.serial, &o.serial) {
            (Some(x), Some(y)) => str_eq(x.as_str(), y.as_str()),
            (None, None) => true,
            _ => false,
        };
        serial_eq && self.local == o.local && self.remote == o.remote
    }
}

impl vstd::std_specs::cmp::PartialEqSpecImpl for MappingDevice {
    open spec fn obeys_eq_spec() -> bool {
        true
    }

    open spec fn eq_spec(&self, o: &MappingDevice) -> bool {
        &&& match (&self.serial, &o.serial) {
            (Some(x), Some(y)) => x@ == y@,
            (None, None) => true,
            _ => false,
        }
        &&& self.local@ == o.local@
        &&& self.remote@ == o.remote@
    }
}

impl Eq for MappingDevice {

}

/// Appends one mapping entry exactly when all three of its wire tokens are
/// present; an incomplete line changes nothing.
pub fn check_and_push(
    acc: &mut Vec<MappingDevice>,
    serial: Option<String>,
    local: Option<&str>,
    remote: Option<&str>,
)
    ensures
        match (local, remote) {
            (Some(l), Some(r)) => serial is Some ==> {
                &&& final(acc)@.len() == old(acc)@.len() + 1
                &&& final(acc)@.last().serial == serial
                &&& final(acc)@.last().local@ == mapping_of(l@)
                &&& final(acc)@.last().remote@ == mapping_of(r@)
                &&& forall|j: int|
                    0 <= j < old(acc)@.len() ==> final(acc)@[j] == #[trigger] old(acc)@[j]
            },
            _ => true,
        },
        !(serial is Some && local is Some && remote is Some) ==> *final(acc) == *old(acc),
{
    if serial.is_some() && local.is_some() && remote.is_some() {
        acc.push(MappingDevice::new(serial, local.unwrap(), remote.unwrap()));
    }
}

/// The first three tokens of a tokenized line, where the line has at least
/// three; a shorter line yields nothing.
pub open spec fn line_triple(line: Seq<Seq<char>>) -> Seq<(Seq<char>, Seq<char>, Seq<char>)> {
    if line.len() >= 3 {
        seq![(line[0], line[1], line[2])]
    } else {
        seq![]
    }
}

/// The token triples of a sequence of tokenized lines, in line order.
pub open spec fn triples_of_lines(ls: Seq<Seq<Seq<char>>>) -> Seq<
    (Seq<char>, Seq<char>, Seq<char>),
>
    decreases ls.len(),
{
    if ls.len() == 0 {
        seq![]
    } else {
        triples_of_lines(ls.drop_last()) + line_triple(ls.last())
    }
}

/// The token triples of a raw listing payload.
pub open spec fn line_triples(s: Seq<char>) -> Seq<(Seq<char>, Seq<char>, Seq<char>)> {
    triples_of_lines(lines_tokens(s))
}

/// Whether parsed entries read their token triples in forward order:
/// `(serial, local, remote)`.
pub open spec fn forward_match(
    ds: Seq<MappingDevice>,
    ts: Seq<(Seq<char>, Seq<char>, Seq<char>)>,
) -> bool {
    ds.len() == ts.len() && forall|j: int|
        0 <= j < ds.len() ==> {
            &&& (#[trigger] ds[j]).serial matches Some(s) && s@ == ts[j].0
            &&& ds[j].local@ == mapping_of(ts[j].1)
            &&& ds[j].remote@ == mapping_of(ts[j].2)
        }
}

/// Whether parsed entries read their token triples in reverse order:
/// `(serial, remote, local)`.
pub open spec fn reverse_match(
    ds: Seq<MappingDevice>,
    ts: Seq<(Seq<char>, Seq<char>, Seq<char>)>,
) -> bool {
    ds.len() == ts.len() && forall|j: int|
        0 <= j < ds.len() ==> {
            &&& (#[trigger] ds[j]).serial matches Some(s) && s@ == ts[j].0
            &&& ds[j].remote@ == mapping_of(ts[j].1)
            &&& ds[j].local@ == mapping_of(ts[j].2)
        }
}

/// Parses a forward-listing response: each line's first three tokens are
/// read as `(serial, local, remote)`; lines with fewer tokens are skipped.
pub fn parse_forward_list(payload: &str) -> (r: Vec<MappingDevice>)
    ensures
        forward_match(r@, line_triples(payload@)),
{
    let lines = tokenize_lines(payload);
    let ghost ls = lines.deep_view();
    let mut out: Vec<MappingDevice> = Vec::new();
    let mut i: usize = 0;
    proof {
        assert(ls.take(0) =~= Seq::<Seq<Seq<char>>>::empty());
    }
    while i < lines.len()
        invariant
            ls == lines.deep_view(),
            ls.len() == lines@.len(),
            i <= lines@.len(),
            forward_match(out@, triples_of_lines(ls.take(i as int))),
        decreases lines@.len() - i,
    {
        proof {
            assert(ls.take(i + 1).drop_last() =~= ls.take(i as int));
            assert(ls.take(i + 1).last() == ls[i as int]);
            assert(ls[i as int] =~= lines@[i as int].deep_view());
        }
        let line = &lines[i];
        if line.len() >= 3 {
            let serial = Some(line[0].clone());
            let entry = MappingDevice::new(serial, line[1].as_str(), line[2].as_str());
            out.push(entry);
            proof {
                assert(lines@[i as int].deep_view()[0] == lines@[i as int]@[0]@);
                assert(lines@[i as int].deep_view()[1] == lines@[i as int]@[1]@);
                assert(lines@[i as int].deep_view()[2] == lines@[i as int]@[2]@);
            }
        }
        i = i + 1;
    }
    proof {
        assert(ls.take(ls.len() as int) =~= ls);
    }
    out
}

/// Parses a reverse-listing response: each line's first three tokens are
/// read as `(serial, remote, local)` — the deliberate swap against the
/// forward direction.
pub fn parse_reverse_list(payload: &str) -> (r: Vec<MappingDevice>)
    ensures
        reverse_match(r@, line_triples(payload@)),
{
    let lines = tokenize_lines(payload);
    let ghost ls = lines.deep_view();
    let mut out: Vec<MappingDevice> = Vec::new();
    let mut i: usize = 0;
    proof {
        assert(ls.take(0) =~= Seq::<Seq<Seq<char>>>::empty());
    }
    while i < lines.len()
        invariant
            ls == lines.deep_view(),
            ls.len() == lines@.len(),
            i <= lines@.len(),
            reverse_match(out@, triples_of_lines(ls.take(i as int))),
        decreases lines@.len() - i,
    {
        proof {
            assert(ls.take(i + 1).drop_last() =~= ls.take(i as int));
            assert(ls.take(i + 1).last() == ls[i as int]);
            assert(ls[i as int] =~= lines@[i as int].deep_view());
        }
        let line = &lines[i];
        if line.len() >= 3 {
            let serial = Some(line[0].clone());
            let entry = MappingDevice::new(serial, line[2].as_str(), line[1].as_str());
            out.push(entry);
            proof {
                assert(lines@[i as int].deep_view()[0] == lines@[i as int]@[0]@);
                assert(lines@[i as int].deep_view()[1] == lines@[i as int]@[1]@);
                assert(lines@[i as int].deep_view()[2] == lines@[i as int]@[2]@);
            }
        }
        i = i + 1;
    }
    proof {
        assert(ls.take(ls.len() as int) =~= ls);
    }
    out
}

/// On one and the same listing payload, forward parsing and reverse
/// parsing emit the same entries with local and remote swapped: what the
/// forward reading calls local, the reverse reading calls remote, and the
/// other way round.
pub proof fn lemma_listing_order_swap(
    s: Seq<char>,
    ds_f: Seq<MappingDevice>,
    ds_r: Seq<MappingDevice>,
)
    requires
        forward_match(ds_f, line_triples(s)),
        reverse_match(ds_r, line_triples(s)),
    ensures
        ds_f.len() == ds_r.len(),
        forall|j: int|
            0 <= j < ds_f.len() ==> (#[trigger] ds_f[j]).local@ == ds_r[j].remote@ && ds_f[j].remote@
                == ds_r[j].local@,
{
}

/// Builds the forward registration command:
/// `host-serial:<serial>:forward[:norebind]:<local>;<remote>`.
pub fn forward_command(serial: &str, local: u32, remote: &MappingType, norebind: Option<bool>) -> (r:
    String)
    ensures
        r@ == "host-serial:"@ + serial@ + ":forward"@ + (if norebind matches Some(true) {
            ":norebind"@
        } else {
            Seq::<char>::empty()
        }) + ":"@ + dec_str(local as int) + ";"@ + mapping_render(remote@),
{
    let mut s = String::from_str("host-serial:");
    s.append(serial);
    s.append(":forward");
    if norebind.is_some() && norebind.unwrap() {
        s.append(":norebind");
    }
    s.append(":");
    let port = u32_to_decimal(local);
    s.append(port.as_str());
    s.append(";");
    let rem = remote.render();
    s.append(rem.as_str());
    proof {
        if norebind matches Some(true) {
            assert(s@ =~= "host-serial:"@ + serial@ + ":forward"@ + ":norebind"@ + ":"@ + dec_str(
                local as int,
            ) + ";"@ + mapping_render(remote@));
        } else {
            assert(s@ =~= "host-serial:"@ + serial@ + ":forward"@ + Seq::<char>::empty() + ":"@
                + dec_str(local as int) + ";"@ + mapping_render(remote@));
        }
    }
    s
}

/// Builds the transport-scoped reverse registration command:
/// `reverse:forward:<remote>;<local>` — remote precedes local in the
/// reverse wire grammar.
pub fn reverse_forward_command(remote: u32, local: u32) -> (r: String)
    ensures
        r@ == "reverse:forward:"@ + dec_str(remote as int) + ";"@ + dec_str(local as int),
{
    let mut s = String::from_str("reverse:forward:");
    let rem = u32_to_decimal(remote);
    s.append(rem.as_str());
    s.append(";");
    let loc = u32_to_decimal(local);
    s.append(loc.as_str());
    proof {
        assert(s@ =~= "reverse:forward:"@ + dec_str(remote as int) + ";"@ + dec_str(local as int));
    }
    s
}

/// Builds the forward-listing request: scoped to one device where a serial
/// is given, host-wide otherwise.
pub fn list_forward_command(serial: Option<&str>) -> (r: String)
    ensures
        match serial {
            Some(s) => r@ == "host-serial:"@ + s@ + ":list-forward"@,
            None => r@ == "host:list-forward"@,
        },
{
    match serial {
        Some(s) => {
            let mut cmd = String::from_str("host-serial:");
            cmd.append(s);
            cmd.append(":list-forward");
            cmd
        },
        None => String::from_str("host:list-forward"),
    }
}

/// The reverse-listing request, issued after transport selection.
pub fn reverse_list_command() -> (r: String)
    ensures
        r@ == "reverse:list-forward"@,
{
    String::from_str("reverse:list-forward")
}

} // verus!
