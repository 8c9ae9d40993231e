//! The decisions of one extraction call that precede any reading: where the
//! outputs go, whether the stream is an alternate one, whether it is
//! encrypted, whether the boot sector is read raw, and what an attempt to
//! create an output leads to.
use crate::error::ExtractError;
use crate::paths::{escape_final_component, escape_final_component_of, split_last_slash, split_path};
use crate::stream::StreamKind;
use crate::vdl::AttributeType;
use vstd::prelude::*;

verus! {

/// Bytes read raw from the start of the device for the boot file.
pub const BOOT_BLOCK_LEN: usize = 8192;

/// The logical path of the volume's boot file.
pub open spec fn boot_path() -> Seq<char> {
    seq!['/', '$', 'B', 'o', 'o', 't']
}

pub open spec fn enc_suffix() -> Seq<char> {
    seq!['.', 'e', 'n', 'c']
}

pub open spec fn slack_suffix() -> Seq<char> {
    seq!['.', 'F', 'i', 'l', 'e', 'S', 'l', 'a', 'c', 'k']
}

pub open spec fn idx_suffix() -> Seq<char> {
    seq!['.', 'i', 'd', 'x']
}

/// The output path before escaping: the output root, the logical path and,
/// when encrypting, `.enc`.
pub open spec fn output_name(out_dir: Seq<char>, file_name: Seq<char>, encrypt: bool) -> Seq<char> {
    out_dir + file_name + if encrypt {
        enc_suffix()
    } else {
        Seq::empty()
    }
}

/// Whether a request with this password encrypts: only a non-empty one does.
pub open spec fn encrypts(password: Option<&str>) -> bool {
    password matches Some(p) && p@.len() > 0
}

/// Where one extraction call writes, and how.
pub struct ExtractionPlan {
    /// Directory to create before the primary output is opened.
    pub directory: String,
    /// The primary output, its last component colon-escaped.
    pub primary: String,
    /// The slack output beside the primary one.
    pub slack: String,
    pub encrypt: bool,
    /// The requested stream is a named alternate stream.
    pub alternate: bool,
    /// Directory index blocks are extracted beside the primary output.
    pub index_blocks: bool,
    /// The boot sector is read raw from the device instead of the stream.
    pub boot: bool,
}

/// Whether `a` and `b` hold the same chars.
pub fn same_chars(a: &str, b: &str) -> (r: bool)
    ensures
        r == (a@ == b@),
{
    let n = a.unicode_len();
    if n != b.unicode_len() {
        return false;
    }
    let mut i: usize = 0;
    while i < n
        invariant
            n == a@.len(),
            n == b@.len(),
            i <= n,
            forall|j: int| 0 <= j < i ==> a@[j] == b@[j],
        decreases n - i,
    {
        if a.get_char(i) != b.get_char(i) {
            return false;
        }
        i = i + 1;
    }
    assert(a@ =~= b@);
    true
}

/// Plans the extraction of stream `stream_name` (empty for the unnamed one)
/// of the file at logical path `file_name` into the tree under `out_dir`.
pub fn plan_extraction(file_name: &str, out_dir: &str, password: Option<&str>, stream_name: &str) -> (r: ExtractionPlan)
    ensures
        r.encrypt == encrypts(password),
        r.alternate == (stream_name@.len() > 0),
        r.index_blocks == !r.alternate,
        r.boot == (file_name@ == boot_path()),
        r.directory@ == split_last_slash(output_name(out_dir@, file_name@, r.encrypt)).0,
        r.primary@ == escape_final_component(output_name(out_dir@, file_name@, r.encrypt)),
        r.slack@ == r.primary@ + slack_suffix(),
{
    let encrypt = match password {
        Some(p) => p.unicode_len() > 0,
        None => false,
    };
    let mut name = String::from_str(out_dir).concat(file_name);
    if encrypt {
        proof {
            reveal_strlit(".enc");
        }
        name = name.concat(".enc");
    }
    proof {
        assert(name@ =~= output_name(out_dir@, file_name@, encrypt));
    }
    let (directory, _last) = split_path(name.as_str());
    let primary = escape_final_component_of(name.as_str());
    proof {
        reveal_strlit(".FileSlack");
        reveal_strlit("/$Boot");
    }
    let slack = primary.clone().concat(".FileSlack");
    assert(slack@ =~= primary@ + slack_suffix());
    let alternate = stream_name.unicode_len() > 0;
    let boot = same_chars(file_name, "/$Boot");
    assert("/$Boot"@ =~= boot_path());
    ExtractionPlan { directory, primary, slack, encrypt, alternate, index_blocks: !alternate, boot }
}

/// The output for the index-allocation attribute `attr_name` of a directory
/// whose primary output is `primary`.
pub fn index_path(primary: &str, attr_name: &str) -> (r: String)
    ensures
        r@ == primary@ + seq!['%', '3', 'A'] + attr_name@ + idx_suffix(),
{
    proof {
        reveal_strlit("%3A");
        reveal_strlit(".idx");
    }
    let r = String::from_str(primary).concat("%3A").concat(attr_name).concat(".idx");
    assert(r@ =~= primary@ + seq!['%', '3', 'A'] + attr_name@ + idx_suffix());
    r
}

/// How a stream is copied: an alternate stream as such; an unnamed resident
/// one whole; an unnamed non-resident one bounded by its valid data length,
/// which must then be known.
pub fn stream_kind(alternate: bool, resident: bool, valid_length: Option<u64>) -> (r: Result<StreamKind, ExtractError>)
    ensures
        alternate ==> r == Ok::<StreamKind, ExtractError>(StreamKind::Alternate),
        !alternate && resident ==> r == Ok::<StreamKind, ExtractError>(StreamKind::Whole),
        !alternate && !resident && valid_length is None ==> r == Err::<StreamKind, ExtractError>(
            ExtractError::VdlUnavailable,
        ),
        !alternate && !resident && valid_length is Some ==> r == Ok::<StreamKind, ExtractError>(
            StreamKind::Bounded { valid_length: valid_length->0 },
        ),
{
    if alternate {
        Ok(StreamKind::Alternate)
    } else if resident {
        Ok(StreamKind::Whole)
    } else {
        match valid_length {
            Some(v) => Ok(StreamKind::Bounded { valid_length: v }),
            None => Err(ExtractError::VdlUnavailable),
        }
    }
}

/// Whether the valid data length must be read: only for the unnamed stream
/// of a non-resident attribute.
pub fn needs_valid_data_length(alternate: bool, resident: bool) -> (r: bool)
    ensures
        r == (!alternate && !resident),
{
    !alternate && !resident
}

/// What came of creating an output file exclusively.
#[derive(Clone, Copy, Debug, PartialEq, Eq, Structural)]
pub enum CreateResult {
    Created,
    AlreadyExists,
    Failed,
}

/// The result of an extraction call that did not fail.
#[derive(Clone, Copy, Debug, PartialEq, Eq, Structural)]
pub enum Outcome {
    Created,
    AlreadySkipped,
}

/// What an extraction call does next.
#[derive(Clone, Copy, Debug, PartialEq, Eq, Structural)]
pub enum Step {
    Proceed,
    Finish(Outcome),
    Fail(ExtractError),
}

/// After trying to create the primary or the slack output: go on when it was
/// created; stop with nothing more written when it already exists, which is
/// no failure; fail otherwise.
pub fn after_create(result: CreateResult) -> (r: Step)
    ensures
        result == CreateResult::Created ==> r == Step::Proceed,
        result == CreateResult::AlreadyExists ==> r == Step::Finish(Outcome::AlreadySkipped),
        result == CreateResult::Failed ==> r == Step::Fail(ExtractError::Open),
{
    match result {
        CreateResult::Created => Step::Proceed,
        CreateResult::AlreadyExists => Step::Finish(Outcome::AlreadySkipped),
        CreateResult::Failed => Step::Fail(ExtractError::Open),
    }
}

/// The raw device path of a drive letter, `\\.\X:`.
pub fn raw_device_path(drive: &str) -> (r: String)
    ensures
        r@ == seq!['\\', '\\', '.', '\\'] + drive@ + seq![':'],
{
    proof {
        reveal_strlit("\\\\.\\");
        reveal_strlit(":");
    }
    let r = String::from_str("\\\\.\\").concat(drive).concat(":");
    assert(r@ =~= seq!['\\', '\\', '.', '\\'] + drive@ + seq![':']);
    r
}

/// The root directory of a drive letter, `X:\`, whose presence tells that
/// the drive is mounted.
pub fn drive_root(drive: &str) -> (r: String)
    ensures
        r@ == drive@ + seq![':', '\\'],
{
    proof {
        reveal_strlit(":\\");
    }
    let r = String::from_str(drive).concat(":\\");
    assert(r@ =~= drive@ + seq![':', '\\']);
    r
}

/// Positions, in order, of the index-allocation attributes among a record's
/// attribute types.
pub open spec fn index_positions(types: Seq<AttributeType>) -> Seq<int>
    decreases types.len(),
{
    if types.len() == 0 {
        Seq::empty()
    } else if types.last() == AttributeType::IndexAllocation {
        index_positions(types.drop_last()).push(types.len() - 1)
    } else {
        index_positions(types.drop_last())
    }
}

/// The positions of the attributes whose index blocks a directory record
/// has extracted: those of type index-allocation, in record order.
pub fn index_allocation_positions(types: &Vec<AttributeType>) -> (r: Vec<usize>)
    ensures
        r@.map_values(|i: usize| i as int) == index_positions(types@),
{
    let mut r: Vec<usize> = Vec::new();
    let mut i: usize = 0;
    proof {
        assert(types@.take(0) =~= Seq::<AttributeType>::empty());
        assert(r@.map_values(|i: usize| i as int) =~= Seq::<int>::empty());
    }
    while i < types.len()
        invariant
            i <= types@.len(),
            r@.map_values(|i: usize| i as int) == index_positions(types@.take(i as int)),
        decreases types@.len() - i,
    {
        proof {
            assert(types@.take(i + 1).drop_last() =~= types@.take(i as int));
            assert(types@.take(i + 1).last() == types@[i as int]);
        }
        if types[i] == AttributeType::IndexAllocation {
            let ghost before = r@;
            r.push(i);
            assert(r@.map_values(|i: usize| i as int) =~= before.map_values(|i: usize| i as int).push(i as int));
        }
        i = i + 1;
    }
    assert(types@.take(types@.len() as int) =~= types@);
    r
}

} // verus!
