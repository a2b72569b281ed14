//! The receiving node's decisions: its acceptance policy, the checks on
//! the name a file is stored under, and the bookkeeping of incoming data.

use crate::bytes::{be_value, lemma_be_value_roundtrip, lemma_pow256_values, read_be};
use crate::digest::{absorbed, blake3_digest, hasher_finalize, hasher_new, hasher_update};
use crate::text::{eq_ignore_ascii_case, eq_ignore_case, hex_lower, str_trim, to_hex_lower, trim_chars};
use crate::transfer::decision::{complete_frame, TransferDecision};
use crate::transport::protocol::{Frame, FrameType, MAX_FRAME_SIZE};
use vstd::prelude::*;
use vstd::string::{StrSliceExecFns, StringExecFns};

verus! {

/// How a node answers offers: by asking its user, or by accepting all.
#[derive(Debug, Clone, Copy, PartialEq, Eq, Structural)]
pub enum ReceivePolicy {
    Manual,
    Auto,
}

impl ReceivePolicy {
    /// The policy that a setting names: `auto` in any ASCII case is
    /// automatic acceptance, anything else (or no setting) is manual.
    pub fn from_setting(value: Option<&str>) -> (p: Self)
        ensures
            value matches Some(v) ==> (p == ReceivePolicy::Auto <==> eq_ignore_case(v@, "auto"@)),
            value is None ==> p == ReceivePolicy::Manual,
    {
        match value {
            Some(v) => if eq_ignore_ascii_case(v, "auto") {
                ReceivePolicy::Auto
            } else {
                ReceivePolicy::Manual
            },
            None => ReceivePolicy::Manual,
        }
    }

    pub fn name(self) -> (s: &'static str)
        ensures
            self == ReceivePolicy::Manual ==> s@ == "manual"@,
            self == ReceivePolicy::Auto ==> s@ == "auto"@,
    {
        match self {
            ReceivePolicy::Manual => "manual",
            ReceivePolicy::Auto => "auto",
        }
    }
}

/// Whether a user's answer to "Accept [y/N]" accepts: `y` or `Y`,
/// surrounding whitespace ignored.
pub open spec fn answer_accepts(answer: Seq<char>) -> bool {
    eq_ignore_case(trim_chars(answer), "y"@)
}

/// A user accepts by answering `y` or `Y`, with any whitespace around it;
/// every other answer, `yes` and the empty answer among them, declines.
pub proof fn lemma_answer_accepts(answer: Seq<char>)
    ensures
        answer_accepts(answer) <==> (trim_chars(answer) == seq!['y'] || trim_chars(answer) == seq![
            'Y',
        ]),
{
    reveal_strlit("y");
    let t = trim_chars(answer);
    if answer_accepts(answer) {
        assert(t.len() == 1);
        assert(crate::text::ascii_lower(t[0]) == 'y');
        if t[0] == 'y' {
            assert(t =~= seq!['y']);
        } else {
            assert(t =~= seq!['Y']);
        }
    }
    if t == seq!['y'] || t == seq!['Y'] {
        assert(crate::text::ascii_lower(t[0]) == crate::text::ascii_lower("y"@[0]));
    }
}

/// The decision on an offer: always accept under the automatic policy,
/// accept on a yes under the manual one.
pub fn decide(policy: ReceivePolicy, answer: &str) -> (d: TransferDecision)
    ensures
        policy == ReceivePolicy::Auto ==> d == TransferDecision::Accept,
        policy == ReceivePolicy::Manual ==> (d == TransferDecision::Accept <==> answer_accepts(
            answer@,
        )),
{
    match policy {
        ReceivePolicy::Auto => TransferDecision::Accept,
        ReceivePolicy::Manual => {
            if eq_ignore_ascii_case(str_trim(answer), "y") {
                TransferDecision::Accept
            } else {
                TransferDecision::Reject
            }
        },
    }
}

/// The final component of a path, as `Path::file_name` of std gives it
/// (for a path that is text, its conversion back to text cannot fail).
pub uninterp spec fn path_file_name(path: Seq<char>) -> Option<Seq<char>>;

/// `Path::new(name).file_name()` of std, converted to text.
///
/// Claimed of it: its result is the named one, and a name with no `/`, `\`
/// or `:` that is neither empty, `.` nor `..` is a single normal path
/// component on every platform, so it is its own file name; the empty path
/// has no file name. Of other names
/// nothing is claimed of the component's characters: on Windows a verbatim
/// `\\?\` path does not treat `/` as a separator.
#[verifier::external_body]
fn file_name_of(name: &str) -> (r: Option<String>)
    ensures
        r matches Some(s) ==> path_file_name(name@) == Some(s@),
        r is None ==> path_file_name(name@) is None,
        name@.len() == 0 ==> r is None,
        r is None ==> !plain_component(name@),
        r matches Some(s) ==> (plain_component(name@) ==> s@ == name@),
{
    std::path::Path::new(name).file_name().and_then(|v| v.to_str()).map(|v| v.to_string())
}

/// A name that no platform reads as more than one plain path component.
pub open spec fn plain_component(name: Seq<char>) -> bool {
    &&& name.len() > 0
    &&& name != seq!['.']
    &&& name != seq!['.', '.']
    &&& !name.contains('/')
    &&& !name.contains('\\')
    &&& !name.contains(':')
}

/// Why a file name is not stored, if it is not: empty, `.` or `..`,
/// holding NUL, or holding a path separator (`/` or `\`), so that a stored
/// name always stays directly inside the receiving directory.
pub open spec fn stored_name_error(name: Seq<char>) -> Option<&'static str> {
    if name.len() == 0 {
        Some("empty filename")
    } else if name == seq!['.'] || name == seq!['.', '.'] {
        Some("invalid filename")
    } else if name.contains('\0') {
        Some("filename contains NUL byte")
    } else if name.contains('/') || name.contains('\\') {
        Some("invalid filename")
    } else {
        None
    }
}

/// Checks the file name that a received file would be stored under.
pub fn check_stored_name(filename: String) -> (r: Result<String, &'static str>)
    ensures
        stored_name_error(filename@) matches Some(e) ==> r == Err::<String, &'static str>(e),
        stored_name_error(filename@) is None ==> (r matches Ok(s) && s@ == filename@),
{
    let n = filename.as_str().unicode_len();
    if n == 0 {
        return Err("empty filename");
    }
    let is_dot = n == 1 && filename.as_str().get_char(0) == '.';
    let is_dot_dot = n == 2 && filename.as_str().get_char(0) == '.' && filename.as_str().get_char(1)
        == '.';
    proof {
        assert(is_dot <==> filename@ == seq!['.']) by {
            if n == 1 && filename@[0] == '.' {
                assert(filename@ =~= seq!['.']);
            }
        }
        assert(is_dot_dot <==> filename@ == seq!['.', '.']) by {
            if n == 2 && filename@[0] == '.' && filename@[1] == '.' {
                assert(filename@ =~= seq!['.', '.']);
            }
        }
    }
    if is_dot || is_dot_dot {
        return Err("invalid filename");
    }
    let mut i: usize = 0;
    while i < n
        invariant
            i <= n,
            n == filename@.len(),
            n > 0,
            filename@ != seq!['.'] && filename@ != seq!['.', '.'],
            forall|j: int| 0 <= j < i ==> filename@[j] != '\0',
        decreases n - i,
    {
        if filename.as_str().get_char(i) == '\0' {
            assert(filename@.contains('\0'));
            return Err("filename contains NUL byte");
        }
        i = i + 1;
    }
    assert(!filename@.contains('\0')) by {
        if filename@.contains('\0') {
            let j = choose|j: int| 0 <= j < filename@.len() && filename@[j] == '\0';
            assert(filename@[j] != '\0');
        }
    }
    let mut i: usize = 0;
    while i < n
        invariant
            i <= n,
            n == filename@.len(),
            n > 0,
            filename@ != seq!['.'] && filename@ != seq!['.', '.'],
            !filename@.contains('\0'),
            forall|j: int| 0 <= j < i ==> filename@[j] != '/' && filename@[j] != '\\',
        decreases n - i,
    {
        let c = filename.as_str().get_char(i);
        if c == '/' || c == '\\' {
            assert(filename@.contains('/') || filename@.contains('\\'));
            return Err("invalid filename");
        }
        i = i + 1;
    }
    assert(!filename@.contains('/') && !filename@.contains('\\')) by {
        if filename@.contains('/') {
            let j = choose|j: int| 0 <= j < filename@.len() && filename@[j] == '/';
            assert(filename@[j] != '/');
        }
        if filename@.contains('\\') {
            let j = choose|j: int| 0 <= j < filename@.len() && filename@[j] == '\\';
            assert(filename@[j] != '\\');
        }
    }
    Ok(filename)
}

/// The name a received file is stored under: the last component of the
/// offered name, which must pass `check_stored_name`.
pub fn safe_filename(name: &str) -> (r: Result<String, &'static str>)
    ensures
        path_file_name(name@) is None ==> r == Err::<String, &'static str>("invalid filename"),
        path_file_name(name@) matches Some(f) ==> (stored_name_error(f) matches Some(e) ==> r
            == Err::<String, &'static str>(e)),
        path_file_name(name@) matches Some(f) ==> (stored_name_error(f) is None ==> (r matches Ok(
            s,
        ) && s@ == f)),
        plain_component(name@) && !name@.contains('\0') ==> (r matches Ok(s) && s@ == name@),
        name@.len() == 0 ==> r is Err,
        r matches Ok(s) ==> stored_name_error(s@) is None && s@.len() > 0 && !s@.contains('/')
            && !s@.contains('\\') && !s@.contains('\0') && s@ != seq!['.'] && s@ != seq![
            '.',
            '.',
        ],
{
    let filename = match file_name_of(name) {
        Some(f) => f,
        None => return Err("invalid filename"),
    };
    let ghost f = filename@;
    let r = check_stored_name(filename);
    proof {
        if r is Ok {
            assert(stored_name_error(f) is None);
        }
    }
    r
}

/// The temporary name a file is received under, beside its final name:
/// `.{name}.{transfer id in hex}.tailsfer.part`.
pub open spec fn temp_name_spec(filename: Seq<char>, transfer_id: Seq<u8>) -> Seq<char> {
    "."@ + filename + "."@ + hex_lower(transfer_id) + ".tailsfer.part"@
}

pub fn temp_file_name(filename: &str, transfer_id: &[u8; 16]) -> (s: String)
    ensures
        s@ == temp_name_spec(filename@, transfer_id@),
{
    let id_hex = to_hex_lower(transfer_id);
    let s = ".".to_string().concat(filename).concat(".").concat(id_hex.as_str()).concat(
        ".tailsfer.part",
    );
    s
}

/// The payload length announced by a frame header, refused above the
/// largest frame with the error `too_large` (the receiver reading an offer
/// says "offer frame too large", the sender "frame payload too large").
pub fn frame_payload_len(header: &[u8; 5], too_large: &'static str) -> (r: Result<
    usize,
    &'static str,
>)
    ensures
        be_value(header@.subrange(1, 5)) > MAX_FRAME_SIZE ==> r == Err::<usize, &'static str>(
            too_large,
        ),
        be_value(header@.subrange(1, 5)) <= MAX_FRAME_SIZE ==> r == Ok::<usize, &'static str>(
            be_value(header@.subrange(1, 5)) as usize,
        ),
{
    proof {
        lemma_pow256_values();
        lemma_be_value_roundtrip(header@.subrange(1, 5));
    }
    let len = read_be(header, 1, 4);
    if len > MAX_FRAME_SIZE as u64 {
        return Err(too_large);
    }
    Ok(len as usize)
}

/// The frame a receiver answers with once the data has arrived: its
/// digest when the transfer succeeded, a rejection when it failed.
pub fn outcome_frame(transfer_id: [u8; 16], digest: Option<[u8; 32]>) -> (r: Result<
    Frame,
    &'static str,
>)
    ensures
        digest matches Some(h) ==> (r matches Ok(f) && f.frame_type == FrameType::Complete
            && f.payload@ == transfer_id@ + h@),
        digest is None ==> (r matches Ok(f) && f.frame_type == FrameType::Reject && f.payload@
            == transfer_id@),
{
    match digest {
        Some(h) => complete_frame(transfer_id, h),
        None => TransferDecision::Reject.to_frame(transfer_id),
    }
}

/// The data of one incoming file: how much is expected, how much has
/// arrived, and the digest of what arrived.
pub struct IncomingTransfer {
    expected: u64,
    total: u64,
    hasher: blake3::Hasher,
}

impl IncomingTransfer {
    /// The count of arrived bytes is the length of what the hasher was fed,
    /// and never exceeds the announced size.
    pub closed spec fn wf(self) -> bool {
        &&& self.total <= self.expected
        &&& self.total == absorbed(self.hasher).len()
    }

    /// The size the offer announced.
    pub closed spec fn expected_size(self) -> u64 {
        self.expected
    }

    /// The bytes received so far, in order.
    pub closed spec fn received(self) -> Seq<u8> {
        absorbed(self.hasher)
    }

    pub fn new(expected: u64) -> (t: Self)
        ensures
            t.wf(),
            t.expected_size() == expected,
            t.received() == Seq::<u8>::empty(),
    {
        Self { expected, total: 0, hasher: hasher_new() }
    }

    /// How many bytes have arrived.
    pub fn total(&self) -> (n: u64)
        requires
            self.wf(),
        ensures
            n == self.received().len(),
    {
        self.total
    }

    /// Takes in the next bytes of the file; more than the announced size is an error.
    pub fn receive(&mut self, data: &[u8]) -> (r: Result<(), &'static str>)
        requires
            old(self).wf(),
        ensures
            final(self).wf(),
            final(self).expected_size() == old(self).expected_size(),
            old(self).received().len() + data@.len() > old(self).expected_size() ==> r == Err::<
                (),
                &'static str,
            >("received more data than expected") && final(self).received() == old(self).received(),
            old(self).received().len() + data@.len() <= old(self).expected_size() ==> r is Ok
                && final(self).received() == old(self).received() + data@,
    {
        if (data.len() as u128) > (self.expected - self.total) as u128 {
            return Err("received more data than expected");
        }
        hasher_update(&mut self.hasher, data);
        self.total = self.total + data.len() as u64;
        Ok(())
    }

    /// The size and digest of the received file, once exactly the announced
    /// size has arrived.
    pub fn finish(&self) -> (r: Result<(u64, [u8; 32]), &'static str>)
        requires
            self.wf(),
        ensures
            self.received().len() != self.expected_size() ==> r == Err::<
                (u64, [u8; 32]),
                &'static str,
            >("transfer size mismatch"),
            self.received().len() == self.expected_size() ==> (r matches Ok((n, d)) && n
                == self.expected_size() && d@ == blake3_digest(self.received())),
    {
        if self.total != self.expected {
            return Err("transfer size mismatch");
        }
        Ok((self.total, hasher_finalize(&self.hasher)))
    }
}


/// A file name that the offer rules accept, and that holds no `:`, is
/// stored under exactly that name.
pub proof fn lemma_offered_name_is_stored_as_is(name: Seq<char>)
    requires
        crate::transfer::offer::file_name_error(name) is None,
        !name.contains(':'),
    ensures
        plain_component(name),
        !name.contains('\0'),
        stored_name_error(name) is None,
{
}

} // verus!
