//! Boot-filesystem view and service-manifest validation for the init
//! service.
//!
//! A bootfs image is an 8-byte header — magic `RCFS`, a 16-bit version and
//! a 16-bit entry count, all little-endian — followed by that many
//! entries: a 16-bit name length, the UTF-8 name, a 32-bit data length and
//! the data, packed with no padding. The functions here treat the image as
//! untrusted: every length is checked against the extent before it is
//! used, and a malformed entry ends iteration instead of reading past the
//! end.
//!
//! The manifest grammar is line-oriented ASCII: blank lines and `#`
//! comments are ignored; every other line must read
//! `service:<name>:<artifact>:<entry>[:<caps>]`, and the artifact must
//! name an entry of the archive.

use vstd::prelude::*;
use vstd::string::StringSliceAdditionalSpecFns;
use vstd::utf8::valid_utf8;

use crate::bootproto::MemoryRange;
use crate::bytes::{
    bytes_eq, find_byte, le16, le32, lines_of, spec_le16, spec_le32, spec_lines, spec_split,
    spec_trim, split_on, starts_with, subvec, trim_ascii, utf8_check, lemma_split_at,
};

verus! {

/// Length of the bootfs header in bytes.
pub const HEADER_LEN: usize = 8;

/// The archive's magic bytes, `RCFS`, followed by format version 1.
pub open spec fn header_ok(d: Seq<u8>) -> bool {
    &&& d.len() >= HEADER_LEN
    &&& d[0] == 0x52
    &&& d[1] == 0x43
    &&& d[2] == 0x46
    &&& d[3] == 0x53
    &&& spec_le16(d, 4) == 1
}

/// Parses the entry starting at offset `o`: its name, its data and the
/// offset just past it — or `None` when any declared length overruns the
/// image or the name is not UTF-8.
pub open spec fn parse_entry(d: Seq<u8>, o: int) -> Option<(Seq<u8>, Seq<u8>, int)> {
    if o + 2 > d.len() {
        None
    } else {
        let nl = spec_le16(d, o);
        if o + 2 + nl > d.len() {
            None
        } else {
            let name = d.subrange(o + 2, o + 2 + nl);
            if o + 2 + nl + 4 > d.len() {
                None
            } else {
                let sz = spec_le32(d, o + 2 + nl);
                if o + 2 + nl + 4 + sz > d.len() {
                    None
                } else if !valid_utf8(name) {
                    None
                } else {
                    Some((name, d.subrange(o + 2 + nl + 4, o + 2 + nl + 4 + sz), o + 2 + nl + 4 + sz))
                }
            }
        }
    }
}

/// Each parsed entry moves the offset forward and stays inside the image.
pub proof fn lemma_parse_entry_advances(d: Seq<u8>, o: int)
    requires
        0 <= o,
        parse_entry(d, o) is Some,
    ensures
        o < parse_entry(d, o).unwrap().2 <= d.len(),
{
}

/// The entries of the image read from offset `o`, at most `remaining` of
/// them, stopping early at the first malformed entry.
pub open spec fn entries_from(d: Seq<u8>, o: int, remaining: nat) -> Seq<(Seq<u8>, Seq<u8>)>
    decreases remaining,
{
    if remaining == 0 {
        Seq::empty()
    } else {
        match parse_entry(d, o) {
            None => Seq::empty(),
            Some((n, dat, no)) => seq![(n, dat)] + entries_from(d, no, (remaining - 1) as nat),
        }
    }
}

/// The entries of a bootfs image: none unless the header is well formed,
/// else the count the header declares, truncated at the first malformed
/// entry.
pub open spec fn spec_entries(d: Seq<u8>) -> Seq<(Seq<u8>, Seq<u8>)> {
    if header_ok(d) {
        entries_from(d, HEADER_LEN as int, spec_le16(d, 6) as nat)
    } else {
        Seq::empty()
    }
}

/// The data of the first entry carrying the given name, if any.
pub open spec fn spec_find_entry(es: Seq<(Seq<u8>, Seq<u8>)>, name: Seq<u8>) -> Option<Seq<u8>>
    decreases es.len(),
{
    if es.len() == 0 {
        None
    } else if es.first().0 == name {
        Some(es.first().1)
    } else {
        spec_find_entry(es.drop_first(), name)
    }
}

/// Iterator over the entries of a bootfs image.
pub struct BootfsIter<'a> {
    data: &'a [u8],
    offset: usize,
    remaining: usize,
}

impl<'a> BootfsIter<'a> {
    /// The entries still to be yielded.
    pub closed spec fn remaining_entries(&self) -> Seq<(Seq<u8>, Seq<u8>)> {
        entries_from(self.data@, self.offset as int, self.remaining as nat)
    }

    /// The iterator's cursor stays inside the image.
    pub closed spec fn wf(&self) -> bool {
        self.offset <= self.data@.len()
    }

    /// Starts iterating an image: refused unless the header is well
    /// formed; the iterator will yield exactly the image's entries.
    pub fn new(data: &'a [u8]) -> (r: Option<BootfsIter<'a>>)
        ensures
            match r {
                Some(it) => {
                    &&& header_ok(data@)
                    &&& it.wf()
                    &&& it.remaining_entries() == spec_entries(data@)
                },
                None => !header_ok(data@),
            },
    {
        if data.len() < HEADER_LEN {
            return None;
        }
        if !(data[0] == 0x52 && data[1] == 0x43 && data[2] == 0x46 && data[3] == 0x53) {
            return None;
        }
        let version = le16(data, 4);
        if version != 1 {
            return None;
        }
        let count = le16(data, 6) as usize;
        Some(BootfsIter { data, offset: HEADER_LEN, remaining: count })
    }

    /// Yields the next entry, or `None` at the end of the listing or at
    /// the first malformed entry.
    pub fn next(&mut self) -> (r: Option<(Vec<u8>, Vec<u8>)>)
        requires
            old(self).wf(),
        ensures
            final(self).wf(),
            match r {
                Some(e) => {
                    &&& old(self).remaining_entries().len() > 0
                    &&& (e.0@, e.1@) == old(self).remaining_entries().first()
                    &&& final(self).remaining_entries() == old(self).remaining_entries().drop_first()
                },
                None => {
                    &&& old(self).remaining_entries().len() == 0
                    &&& final(self).remaining_entries().len() == 0
                },
            },
    {
        let n = self.data.len();
        if self.remaining == 0 {
            return None;
        }
        let o = self.offset;
        if n - o < 2 {
            return None;
        }
        let name_len = le16(self.data, o) as usize;
        if n - o - 2 < name_len {
            return None;
        }
        let name = subvec(self.data, o + 2, o + 2 + name_len);
        if n - o - 2 - name_len < 4 {
            return None;
        }
        let size32 = le32(self.data, o + 2 + name_len);
        let size = size32 as usize;
        if n - o - 2 - name_len - 4 < size {
            return None;
        }
        if !utf8_check(name.as_slice()) {
            return None;
        }
        let data_start = o + 2 + name_len + 4;
        let payload = subvec(self.data, data_start, data_start + size);
        self.offset = data_start + size;
        self.remaining = self.remaining - 1;
        proof {
            assert(parse_entry(self.data@, o as int) == Some(
                (name@, payload@, self.offset as int),
            ));
        }
        Some((name, payload))
    }
}

/// A borrowed view over a bootfs extent together with its staged bytes.
pub struct BootfsView {
    range: MemoryRange,
    data: Vec<u8>,
}

/// The manifest entry's name, `services.manifest`.
pub open spec fn manifest_name() -> Seq<u8> {
    seq![
        0x73u8, 0x65u8, 0x72u8, 0x76u8, 0x69u8, 0x63u8, 0x65u8, 0x73u8, 0x2eu8, 0x6du8, 0x61u8,
        0x6eu8, 0x69u8, 0x66u8, 0x65u8, 0x73u8, 0x74u8,
    ]
}

/// The leading keyword of a service line, `service:`.
pub open spec fn service_prefix() -> Seq<u8> {
    seq![0x73u8, 0x65u8, 0x72u8, 0x76u8, 0x69u8, 0x63u8, 0x65u8, 0x3au8]
}

/// What validation finds wrong with a manifest.
#[derive(Debug, Clone, Copy, PartialEq, Eq, Structural)]
pub enum ManifestError {
    /// No entry named `services.manifest` exists.
    MissingManifest,
    /// The manifest bytes are not valid UTF-8.
    Utf8,
    /// A line has the wrong prefix, too few or too many fields, or an
    /// empty name, artifact or entry point.
    InvalidFormat,
    /// A service's artifact names no entry of the archive.
    MissingArtifact,
    /// The manifest declares no service.
    Empty,
}

/// Outcome of manifest validation: the number of valid service lines, or
/// the first error.
#[derive(Debug, Clone, Copy, PartialEq, Eq, Structural)]
pub struct ManifestSummary {
    pub services: u32,
    pub error: Option<ManifestError>,
}

impl ManifestSummary {
    /// A successful validation of `services` service lines.
    pub fn ok(services: u32) -> (r: ManifestSummary)
        ensures
            r == (ManifestSummary { services, error: None }),
    {
        ManifestSummary { services, error: None }
    }

    /// A failed validation.
    pub fn error(error: ManifestError) -> (r: ManifestSummary)
        ensures
            r == (ManifestSummary { services: 0, error: Some(error) }),
    {
        ManifestSummary { services: 0, error: Some(error) }
    }
}

/// Parses one trimmed service line into its name, artifact, entry point
/// and capability list, per the grammar
/// `service:<name>:<artifact>:<entry>[:<caps>]`.
pub open spec fn spec_parse_service_line(t: Seq<u8>) -> Result<
    (Seq<u8>, Seq<u8>, Seq<u8>, Seq<u8>),
    ManifestError,
> {
    if !(t.len() >= 8 && t.take(8) == service_prefix()) {
        Err(ManifestError::InvalidFormat)
    } else {
        let fields = spec_split(t.skip(8), 0x3A);
        if fields.len() > 4 || fields.len() < 3 {
            Err(ManifestError::InvalidFormat)
        } else {
            let name = spec_trim(fields[0]);
            let artifact = spec_trim(fields[1]);
            let entry = spec_trim(fields[2]);
            let caps = if fields.len() >= 4 {
                spec_trim(fields[3])
            } else {
                Seq::empty()
            };
            if name.len() == 0 || artifact.len() == 0 || entry.len() == 0 {
                Err(ManifestError::InvalidFormat)
            } else {
                Ok((name, artifact, entry, caps))
            }
        }
    }
}

/// Judges one manifest line: `Ok(false)` for a blank or comment line,
/// `Ok(true)` for a valid service line whose artifact exists in the
/// archive, and the specific error otherwise.
pub open spec fn spec_line_verdict(es: Seq<(Seq<u8>, Seq<u8>)>, line: Seq<u8>) -> Result<
    bool,
    ManifestError,
> {
    let t = spec_trim(line);
    if t.len() == 0 || t.first() == 0x23 {
        Ok(false)
    } else {
        match spec_parse_service_line(t) {
            Err(e) => Err(e),
            Ok((name, artifact, entry, caps)) => {
                if spec_find_entry(es, artifact) is None {
                    Err(ManifestError::MissingArtifact)
                } else {
                    Ok(true)
                }
            },
        }
    }
}

/// Scans the manifest's lines from index `i` on: the number of valid
/// service lines, or the first error.
pub open spec fn spec_scan_from(
    es: Seq<(Seq<u8>, Seq<u8>)>,
    lines: Seq<Seq<u8>>,
    i: int,
) -> Result<int, ManifestError>
    decreases lines.len() - i,
{
    if i < 0 || i >= lines.len() {
        Ok(0)
    } else {
        match spec_line_verdict(es, lines[i]) {
            Err(e) => Err(e),
            Ok(b) => match spec_scan_from(es, lines, i + 1) {
                Err(e) => Err(e),
                Ok(m) => Ok(m + if b {
                    1int
                } else {
                    0int
                }),
            },
        }
    }
}


/// Number of valid service lines from index `i` on, assuming none errors.
pub open spec fn spec_service_count(es: Seq<(Seq<u8>, Seq<u8>)>, lines: Seq<Seq<u8>>, i: int) -> int
    decreases lines.len() - i,
{
    if i < 0 || i >= lines.len() {
        0
    } else {
        (if spec_line_verdict(es, lines[i]) == Ok::<bool, ManifestError>(true) {
            1int
        } else {
            0int
        }) + spec_service_count(es, lines, i + 1)
    }
}

/// Manifest round trip, first half: a well-formed manifest — every line a
/// blank, a comment, or a valid service line whose artifact is present —
/// scans without error, and the count is exactly its number of service
/// lines.
pub proof fn lemma_manifest_round_trip(es: Seq<(Seq<u8>, Seq<u8>)>, lines: Seq<Seq<u8>>, i: int)
    requires
        0 <= i <= lines.len(),
        forall|j: int| 0 <= j < lines.len() ==> (#[trigger] spec_line_verdict(es, lines[j])) is Ok,
    ensures
        spec_scan_from(es, lines, i) == Ok::<int, ManifestError>(spec_service_count(es, lines, i)),
    decreases lines.len() - i,
{
    if i < lines.len() {
        lemma_manifest_round_trip(es, lines, i + 1);
    }
}

/// Manifest round trip, second half: corrupting one line — wrong prefix,
/// missing field, empty field, or a missing artifact — surfaces exactly
/// that line's error, for the first such line.
pub proof fn lemma_manifest_corruption(
    es: Seq<(Seq<u8>, Seq<u8>)>,
    lines: Seq<Seq<u8>>,
    i: int,
    bad: int,
    e: ManifestError,
)
    requires
        0 <= i <= bad < lines.len(),
        forall|j: int| i <= j < bad ==> (#[trigger] spec_line_verdict(es, lines[j])) is Ok,
        spec_line_verdict(es, lines[bad]) == Err::<bool, ManifestError>(e),
    ensures
        spec_scan_from(es, lines, i) == Err::<int, ManifestError>(e),
    decreases bad - i,
{
    if i < bad {
        lemma_manifest_corruption(es, lines, i + 1, bad, e);
    }
}

/// The summary manifest validation produces for an archive with the given
/// entries: the manifest entry is located, decoded as UTF-8, and its
/// lines are scanned; an empty service list is an error, and the service
/// count saturates at 32 bits.
pub open spec fn spec_validate_manifest(es: Seq<(Seq<u8>, Seq<u8>)>) -> ManifestSummary {
    match spec_find_entry(es, manifest_name()) {
        None => ManifestSummary { services: 0, error: Some(ManifestError::MissingManifest) },
        Some(bytes) => {
            if !valid_utf8(bytes) {
                ManifestSummary { services: 0, error: Some(ManifestError::Utf8) }
            } else {
                match spec_scan_from(es, spec_lines(bytes), 0) {
                    Err(e) => ManifestSummary { services: 0, error: Some(e) },
                    Ok(n) => {
                        if n == 0 {
                            ManifestSummary { services: 0, error: Some(ManifestError::Empty) }
                        } else if n > u32::MAX {
                            ManifestSummary { services: u32::MAX, error: None }
                        } else {
                            ManifestSummary { services: n as u32, error: None }
                        }
                    },
                }
            }
        },
    }
}

impl BootfsView {
    /// The staged image bytes.
    pub closed spec fn spec_data(&self) -> Seq<u8> {
        self.data@
    }

    /// The extent's base address.
    pub closed spec fn spec_base(&self) -> u64 {
        self.range.base
    }

    /// The extent describes exactly the staged bytes.
    pub closed spec fn wf(&self) -> bool {
        self.range.length == self.data@.len()
    }

    /// A view of no bytes.
    pub fn empty() -> (r: BootfsView)
        ensures
            r.wf(),
            r.spec_data() == Seq::<u8>::empty(),
    {
        BootfsView { range: MemoryRange::empty(), data: Vec::new() }
    }

    /// A view over a staged extent; the extent must describe exactly the
    /// bytes handed in.
    pub fn from_range(range: MemoryRange, data: Vec<u8>) -> (r: BootfsView)
        requires
            range.length == data@.len(),
        ensures
            r.wf(),
            r.spec_data() == data@,
            r.spec_base() == range.base,
    {
        BootfsView { range, data }
    }

    /// Whether the view holds no bytes.
    pub fn is_empty(&self) -> (r: bool)
        requires
            self.wf(),
        ensures
            r == (self.spec_data().len() == 0),
    {
        self.range.length == 0
    }

    /// The extent's base address.
    pub fn base(&self) -> (r: u64)
        ensures
            r == self.spec_base(),
    {
        self.range.base
    }

    /// The extent's length in bytes.
    pub fn length(&self) -> (r: u64)
        requires
            self.wf(),
        ensures
            r == self.spec_data().len(),
    {
        self.range.length
    }

    /// Copies the view.
    pub fn duplicate(&self) -> (r: BootfsView)
        ensures
            r.spec_data() == self.spec_data(),
            r.spec_base() == self.spec_base(),
            r.wf() == self.wf(),
    {
        let data = subvec(self.data.as_slice(), 0, self.data.len());
        proof {
            assert(data@ =~= self.data@);
        }
        BootfsView { range: self.range, data }
    }

    /// Looks up the data of the entry named `name`.
    pub fn find_entry(&self, name: &str) -> (r: Option<Vec<u8>>)
        ensures
            match r {
                Some(d) => spec_find_entry(spec_entries(self.spec_data()), name.spec_bytes())
                    == Some(d@),
                None => spec_find_entry(spec_entries(self.spec_data()), name.spec_bytes())
                    is None,
            },
    {
        self.find_entry_bytes(name.as_bytes())
    }

    /// Looks up the data of the entry whose name has the given bytes.
    pub fn find_entry_bytes(&self, name: &[u8]) -> (r: Option<Vec<u8>>)
        ensures
            match r {
                Some(d) => spec_find_entry(spec_entries(self.spec_data()), name@) == Some(d@),
                None => spec_find_entry(spec_entries(self.spec_data()), name@) is None,
            },
    {
        let mut iter = match BootfsIter::new(self.data.as_slice()) {
            Some(it) => it,
            None => {
                return None;
            },
        };
        loop
            invariant
                iter.wf(),
                spec_find_entry(spec_entries(self.spec_data()), name@) == spec_find_entry(
                    iter.remaining_entries(),
                    name@,
                ),
            decreases iter.remaining_entries().len(),
        {
            match iter.next() {
                Some(e) => {
                    let (ename, edata) = e;
                    if bytes_eq(ename.as_slice(), name) {
                        return Some(edata);
                    }
                },
                None => {
                    return None;
                },
            }
        }
    }

    /// Validates the service manifest against the archive, per
    /// [`spec_validate_manifest`]: the first error is reported, and a
    /// well-formed manifest yields its service count.
    pub fn validate_manifest(&self) -> (r: ManifestSummary)
        ensures
            r == spec_validate_manifest(spec_entries(self.spec_data())),
    {
        let ghost es = spec_entries(self.spec_data());
        let manifest_bytes = match self.find_entry_bytes(manifest_name_bytes().as_slice()) {
            Some(b) => b,
            None => {
                return ManifestSummary::error(ManifestError::MissingManifest);
            },
        };
        if !utf8_check(manifest_bytes.as_slice()) {
            return ManifestSummary::error(ManifestError::Utf8);
        }
        let lines = lines_of(manifest_bytes.as_slice());
        let ghost slines = spec_lines(manifest_bytes@);
        let mut services: u32 = 0;
        let mut count_exact: Ghost<int> = Ghost(0int);
        let mut i: usize = 0;
        while i < lines.len()
            invariant
                i <= lines@.len(),
                es == spec_entries(self.spec_data()),
                spec_find_entry(es, manifest_name()) == Some(manifest_bytes@),
                valid_utf8(manifest_bytes@),
                slines == spec_lines(manifest_bytes@),
                lines@.len() == slines.len(),
                forall|j: int| 0 <= j < slines.len() ==> (#[trigger] lines@[j])@ == slines[j],
                spec_scan_from(es, slines, 0) == (match spec_scan_from(es, slines, i as int) {
                    Err(e) => Err::<int, ManifestError>(e),
                    Ok(m) => Ok::<int, ManifestError>(m + count_exact@),
                }),
                count_exact@ >= 0,
                services == (if count_exact@ > u32::MAX {
                    u32::MAX as int
                } else {
                    count_exact@
                }),
            decreases lines@.len() - i,
        {
            let line = &lines[i];
            match self.line_verdict(line) {
                Err(e) => {
                    proof {
                        assert(lines@[i as int]@ == slines[i as int]);
                        assert(spec_line_verdict(es, slines[i as int]) == Err::<bool,
                            ManifestError,
                        >(e));
                        assert(spec_scan_from(es, slines, i as int) == Err::<int, ManifestError>(
                            e,
                        ));
                        assert(spec_scan_from(es, slines, 0) == Err::<int, ManifestError>(e));
                        assert(spec_find_entry(es, manifest_name()) == Some(manifest_bytes@));
                        assert(valid_utf8(manifest_bytes@));
                        assert(spec_validate_manifest(es) == (ManifestSummary {
                            services: 0,
                            error: Some(e),
                        }));
                    }
                    return ManifestSummary::error(e);
                },
                Ok(counted) => {
                    proof {
                        assert(lines@[i as int]@ == slines[i as int]);
                        assert(spec_line_verdict(es, slines[i as int]) == Ok::<bool, ManifestError>(
                            counted,
                        ));
                    }
                    if counted {
                        services = saturating_inc(services);
                        proof {
                            count_exact@ = count_exact@ + 1;
                        }
                    }
                },
            }
            i += 1;
        }
        if services == 0 {
            proof {
                assert(spec_scan_from(es, slines, i as int) == Ok::<int, ManifestError>(0));
            }
            return ManifestSummary::error(ManifestError::Empty);
        }
        ManifestSummary::ok(services)
    }

    /// Judges one manifest line against the archive, per
    /// [`spec_line_verdict`].
    fn line_verdict(&self, line: &Vec<u8>) -> (r: Result<bool, ManifestError>)
        ensures
            r == spec_line_verdict(spec_entries(self.spec_data()), line@),
    {
        let t = trim_ascii(line.as_slice());
        if t.len() == 0 {
            return Ok(false);
        }
        if t[0] == 0x23 {
            return Ok(false);
        }
        match parse_service_line(t.as_slice()) {
            Err(e) => Err(e),
            Ok(desc) => {
                match self.find_entry_bytes(desc.artifact.as_slice()) {
                    None => Err(ManifestError::MissingArtifact),
                    Some(_) => Ok(true),
                }
            },
        }
    }
}

fn saturating_inc(x: u32) -> (r: u32)
    ensures
        r == (if x == u32::MAX {
            u32::MAX as int
        } else {
            x + 1
        }),
{
    if x == u32::MAX {
        x
    } else {
        x + 1
    }
}

fn manifest_name_bytes() -> (r: Vec<u8>)
    ensures
        r@ == manifest_name(),
{
    let mut v: Vec<u8> = Vec::new();
    v.push(0x73);
    v.push(0x65);
    v.push(0x72);
    v.push(0x76);
    v.push(0x69);
    v.push(0x63);
    v.push(0x65);
    v.push(0x73);
    v.push(0x2e);
    v.push(0x6d);
    v.push(0x61);
    v.push(0x6e);
    v.push(0x69);
    v.push(0x66);
    v.push(0x65);
    v.push(0x73);
    v.push(0x74);
    proof {
        assert(v@ =~= manifest_name());
    }
    v
}

/// A service declaration parsed from one manifest line.
pub struct ServiceDescriptor {
    pub name: Vec<u8>,
    pub artifact: Vec<u8>,
    pub entry: Vec<u8>,
    pub capabilities: CapabilityList,
}

/// Parses one trimmed service line, per [`spec_parse_service_line`].
pub fn parse_service_line(line: &[u8]) -> (r: Result<ServiceDescriptor, ManifestError>)
    ensures
        match r {
            Ok(d) => spec_parse_service_line(line@) == Ok::<_, ManifestError>(
                (d.name@, d.artifact@, d.entry@, d.capabilities.spec_inner()),
            ),
            Err(e) => spec_parse_service_line(line@) == Err::<(Seq<u8>, Seq<u8>, Seq<u8>, Seq<u8>),
                ManifestError,
            >(e),
        },
{
    let prefix = service_prefix_bytes();
    if !starts_with(line, prefix.as_slice()) {
        return Err(ManifestError::InvalidFormat);
    }
    let rest = subvec(line, 8, line.len());
    proof {
        assert(rest@ =~= line@.skip(8));
    }
    let fields = split_on(rest.as_slice(), 0x3A);
    if fields.len() > 4 || fields.len() < 3 {
        return Err(ManifestError::InvalidFormat);
    }
    let name = trim_ascii(fields[0].as_slice());
    let artifact = trim_ascii(fields[1].as_slice());
    let entry = trim_ascii(fields[2].as_slice());
    let caps: Vec<u8> = if fields.len() >= 4 {
        trim_ascii(fields[3].as_slice())
    } else {
        Vec::new()
    };
    if name.len() == 0 || artifact.len() == 0 || entry.len() == 0 {
        return Err(ManifestError::InvalidFormat);
    }
    Ok(ServiceDescriptor { name, artifact, entry, capabilities: CapabilityList { inner: caps } })
}

fn service_prefix_bytes() -> (r: Vec<u8>)
    ensures
        r@ == service_prefix(),
{
    let mut v: Vec<u8> = Vec::new();
    v.push(0x73);
    v.push(0x65);
    v.push(0x72);
    v.push(0x76);
    v.push(0x69);
    v.push(0x63);
    v.push(0x65);
    v.push(0x3a);
    proof {
        assert(v@ =~= service_prefix());
    }
    v
}

/// The comma-separated capability names of a service line: each segment
/// trimmed, empty segments skipped.
pub open spec fn spec_caps(s: Seq<u8>) -> Seq<Seq<u8>> {
    filter_caps(spec_split(s, 0x2C))
}

/// Trims every field and keeps the non-empty ones.
pub open spec fn filter_caps(fields: Seq<Seq<u8>>) -> Seq<Seq<u8>>
    decreases fields.len(),
{
    if fields.len() == 0 {
        Seq::empty()
    } else {
        let h = spec_trim(fields.first());
        (if h.len() > 0 {
            seq![h]
        } else {
            Seq::empty()
        }) + filter_caps(fields.drop_first())
    }
}

proof fn lemma_caps_empty()
    ensures
        spec_caps(Seq::<u8>::empty()) == Seq::<Seq<u8>>::empty(),
{
    let f = spec_split(Seq::<u8>::empty(), 0x2C);
    assert(f =~= seq![Seq::<u8>::empty()]);
    assert(f.first().len() == 0);
    assert(spec_trim(f.first()).len() == 0);
    assert(f.drop_first() =~= Seq::<Seq<u8>>::empty());
    assert(filter_caps(f.drop_first()) =~= Seq::<Seq<u8>>::empty());
    assert(filter_caps(f) =~= Seq::<Seq<u8>>::empty());
    assert(spec_caps(Seq::<u8>::empty()) =~= Seq::<Seq<u8>>::empty());
}

/// The capability segment of a service line.
pub struct CapabilityList {
    inner: Vec<u8>,
}

impl CapabilityList {
    /// The raw capability bytes.
    pub closed spec fn spec_inner(&self) -> Seq<u8> {
        self.inner@
    }

    /// Wraps the capability segment of a service line.
    pub fn from_str(inner: &str) -> (r: CapabilityList)
        ensures
            r.spec_inner() == inner.spec_bytes(),
    {
        let bytes = inner.as_bytes();
        CapabilityList { inner: subvec(bytes, 0, bytes.len()) }
    }

    /// Iterates the capability names.
    pub fn iter(&self) -> (r: CapabilityIter)
        ensures
            r.remaining_caps() == spec_caps(self.spec_inner()),
    {
        let copy = subvec(self.inner.as_slice(), 0, self.inner.len());
        proof {
            assert(copy@ =~= self.inner@);
        }
        CapabilityIter { inner: copy }
    }
}

/// Iterator over the capability names of a service line.
pub struct CapabilityIter {
    inner: Vec<u8>,
}

impl CapabilityIter {
    /// The capability names still to be yielded.
    pub closed spec fn remaining_caps(&self) -> Seq<Seq<u8>> {
        spec_caps(self.inner@)
    }

    /// Yields the next capability name.
    pub fn next(&mut self) -> (r: Option<Vec<u8>>)
        ensures
            match r {
                Some(c) => {
                    &&& old(self).remaining_caps().len() > 0
                    &&& c@ == old(self).remaining_caps().first()
                    &&& final(self).remaining_caps() == old(self).remaining_caps().drop_first()
                },
                None => {
                    &&& old(self).remaining_caps().len() == 0
                    &&& final(self).remaining_caps().len() == 0
                },
            },
    {
        let ghost orig_caps = self.remaining_caps();
        loop
            invariant
                orig_caps == old(self).remaining_caps(),
                self.remaining_caps() == orig_caps,
            decreases self.inner@.len(),
        {
            if self.inner.len() == 0 {
                proof {
                    assert(self.inner@ =~= Seq::<u8>::empty());
                    lemma_caps_empty();
                }
                return None;
            }
            let ghost s = self.inner@;
            let found = find_byte(self.inner.as_slice(), 0, 0x2C);
            let cut: usize = match found {
                Some(i) => i,
                None => self.inner.len(),
            };
            let head = trim_ascii(subvec(self.inner.as_slice(), 0, cut).as_slice());
            let tail: Vec<u8> = if cut < self.inner.len() {
                subvec(self.inner.as_slice(), cut + 1, self.inner.len())
            } else {
                Vec::new()
            };
            proof {
                lemma_split_at(s, 0x2C, cut as int);
                if (cut as int) < s.len() {
                    assert(s.take(cut as int) =~= s.subrange(0, cut as int));
                    assert(s.skip(cut + 1) =~= tail@);
                    assert(spec_split(s, 0x2C) =~= seq![s.take(cut as int)] + spec_split(
                        tail@,
                        0x2C,
                    ));
                    assert(spec_split(s, 0x2C).first() == s.take(cut as int));
                    assert(spec_split(s, 0x2C).drop_first() =~= spec_split(tail@, 0x2C));
                } else {
                    assert(s.take(cut as int) =~= s);
                    assert(spec_split(s, 0x2C) =~= seq![s]);
                    assert(spec_split(s, 0x2C).first() == s);
                    assert(tail@ =~= Seq::<u8>::empty());
                    assert(spec_split(tail@, 0x2C) =~= seq![Seq::<u8>::empty()]);
                    assert(spec_split(s, 0x2C).drop_first() =~= Seq::<Seq<u8>>::empty());
                    assert(filter_caps(spec_split(s, 0x2C).drop_first()) =~= Seq::<Seq<u8>>::empty());
                    lemma_caps_empty();
                    assert(spec_caps(tail@) == Seq::<Seq<u8>>::empty());
                }
                assert(head@ == spec_trim(spec_split(s, 0x2C).first()));
                assert(spec_caps(s) == (if head@.len() > 0 {
                    seq![head@]
                } else {
                    Seq::<Seq<u8>>::empty()
                }) + filter_caps(spec_split(s, 0x2C).drop_first()));
                if (cut as int) < s.len() {
                    assert(filter_caps(spec_split(s, 0x2C).drop_first()) == spec_caps(tail@));
                }
            }
            self.inner = tail;
            if head.len() > 0 {
                proof {
                    assert(orig_caps.first() == head@);
                    assert(orig_caps.drop_first() =~= spec_caps(self.inner@));
                }
                return Some(head);
            }
        }
    }
}

} // verus!
