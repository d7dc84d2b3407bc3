//! The output of the helper that computes a face crop's embedding.

use vstd::prelude::*;
use vstd::string::*;

use crate::bytes::{le32_at, read_le32};
use crate::number::{dec, dec_int, push_dec, push_dec_int};
use crate::text::{from_utf8_lossy, lossy, trim, trimmed, Pat};

verus! {

/// How many numbers an embedding has.
pub const EMBED_DIM: usize = 512;

/// The length of the helper's output: the embedding and one number more, four bytes each.
pub const RAW_OUTPUT_LEN: usize = 2052;

pub const MODEL_PATH: &'static str = "/alg/petkit_face_rec_mtl_s2_v5_sim.axmodel";

pub const HELPER_PATH: &'static str = "/opt/kibble/kibble-embed";

/// An embedding as the bit patterns of its floating-point numbers.
pub struct RawEmbedding {
    pub feat: Vec<u32>,
    /// The model's own second output.
    pub prob: u32,
}

/// Why there is no embedding.
#[derive(Debug)]
pub enum EmbedError {
    /// The helper could not be started.
    Spawn(String),
    /// The helper failed.
    ExitStatus { code: Option<i32>, stderr: String },
    /// The helper's output does not have the right length.
    BadOutputLen(usize),
}

/// An exit code as it is reported.
pub open spec fn code_text(code: Option<i32>) -> Seq<char> {
    match code {
        Some(c) => "Some("@ + dec_int(c as int) + ")"@,
        None => "None"@,
    }
}

pub fn code_string(code: Option<i32>) -> (s: String)
    ensures
        s@ == code_text(code),
{
    match code {
        Some(c) => {
            let mut s: String = "Some(".to_owned();
            push_dec_int(&mut s, c as i64);
            s.append(")");
            s
        },
        None => "None".to_owned(),
    }
}

impl EmbedError {
    pub open spec fn text(&self) -> Seq<char> {
        match self {
            EmbedError::Spawn(m) => "spawn "@ + HELPER_PATH@ + ": "@ + m@,
            EmbedError::ExitStatus { code, stderr } => HELPER_PATH@ + " exited "@ + code_text(*code)
                + ": "@ + trimmed(stderr@, Pat::Space),
            EmbedError::BadOutputLen(n) => HELPER_PATH@ + " wrote "@ + dec(*n as nat)
                + " bytes, expected "@ + dec(RAW_OUTPUT_LEN as nat),
        }
    }

    pub fn message(&self) -> (s: String)
        ensures
            s@ == self.text(),
    {
        match self {
            EmbedError::Spawn(m) => {
                let mut s: String = "spawn ".to_owned();
                s.append(HELPER_PATH);
                s.append(": ");
                s.append(m.as_str());
                s
            },
            EmbedError::ExitStatus { code, stderr } => {
                let mut s: String = HELPER_PATH.to_owned();
                s.append(" exited ");
                s.append(code_string(*code).as_str());
                s.append(": ");
                s.append(trim(stderr.as_str(), Pat::Space));
                s
            },
            EmbedError::BadOutputLen(n) => {
                let mut s: String = HELPER_PATH.to_owned();
                s.append(" wrote ");
                push_dec(&mut s, *n as u64);
                s.append(" bytes, expected ");
                push_dec(&mut s, RAW_OUTPUT_LEN as u64);
                s
            },
        }
    }
}

/// Whether `e` holds what the bytes say.
pub open spec fn decodes_to(bytes: Seq<u8>, e: RawEmbedding) -> bool {
    &&& e.feat@.len() == EMBED_DIM
    &&& forall|i: int| 0 <= i < EMBED_DIM ==> #[trigger] e.feat@[i] == le32_at(bytes, 4 * i)
    &&& e.prob == le32_at(bytes, 2048)
}

/// Decodes the helper's output.
pub fn parse_output(bytes: &[u8]) -> (r: Result<RawEmbedding, EmbedError>)
    ensures
        match r {
            Ok(e) => bytes@.len() == RAW_OUTPUT_LEN && decodes_to(bytes@, e),
            Err(EmbedError::BadOutputLen(n)) => bytes@.len() != RAW_OUTPUT_LEN && n == bytes@.len(),
            _ => false,
        },
{
    if bytes.len() != RAW_OUTPUT_LEN {
        return Err(EmbedError::BadOutputLen(bytes.len()));
    }
    let mut feat: Vec<u32> = Vec::new();
    let mut i: usize = 0;
    while i < EMBED_DIM
        invariant
            i <= EMBED_DIM,
            bytes@.len() == RAW_OUTPUT_LEN,
            feat@.len() == i,
            forall|j: int| 0 <= j < i ==> #[trigger] feat@[j] == le32_at(bytes@, 4 * j),
        decreases EMBED_DIM - i,
    {
        feat.push(read_le32(bytes, 4 * i));
        i = i + 1;
    }
    Ok(RawEmbedding { feat, prob: read_le32(bytes, 2048) })
}

/// What a run of the helper that ended comes to.
pub fn finish(success: bool, code: Option<i32>, stdout: &[u8], stderr: &[u8]) -> (r: Result<
    RawEmbedding,
    EmbedError,
>)
    ensures
        match r {
            Ok(e) => success && stdout@.len() == RAW_OUTPUT_LEN && decodes_to(stdout@, e),
            Err(EmbedError::BadOutputLen(n)) => success && stdout@.len() != RAW_OUTPUT_LEN && n
                == stdout@.len(),
            Err(EmbedError::ExitStatus { code: c, stderr: m }) => !success && c == code && m@
                == lossy(stderr@),
            Err(EmbedError::Spawn(_)) => false,
        },
{
    if !success {
        return Err(EmbedError::ExitStatus { code, stderr: from_utf8_lossy(stderr) });
    }
    parse_output(stdout)
}

/// The helper's output gives back the embedding and the probability that were written, four bytes each
/// with the low one first.
pub proof fn law_output_reads_back(feat: Seq<u32>, prob: u32, e: RawEmbedding, i: int)
    requires
        feat.len() == 512,
        0 <= i < 512,
        decodes_to(crate::faces::embedding_bytes(feat) + crate::bytes::le32(prob as nat), e),
    ensures
        e.feat@.len() == 512,
        e.feat@[i] == feat[i],
        e.prob == prob,
{
    let b = crate::faces::embedding_bytes(feat);
    let t = crate::bytes::le32(prob as nat);
    crate::faces::laws::lemma_embedding_len(feat);
    crate::faces::laws::law_embedding_reads_back(feat, i);
    crate::bytes::lemma_le32(prob as nat);
    let all = b + t;
    assert(e.feat@[i] == le32_at(all, 4 * i));
    assert(all[4 * i] == b[i * 4] && all[4 * i + 1] == b[i * 4 + 1] && all[4 * i + 2] == b[i * 4 + 2]
        && all[4 * i + 3] == b[i * 4 + 3]);
    assert(all[2048] == t[0] && all[2049] == t[1] && all[2050] == t[2] && all[2051] == t[3]);
}

} // verus!
