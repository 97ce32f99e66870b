use vstd::prelude::*;

use crate::error::VerifyError;
use vstd::arithmetic::power2::pow2;
use vstd::string::StringSliceAdditionalSpecFns;

verus! {

/// Attempts made for one blob before giving up.
pub const MAX_ATTEMPTS: u32 = 3;

/// Delay before the second attempt; each later delay doubles it.
pub const BASE_BACKOFF_MS: u64 = 250;

/// Status code of a successful aggregator response.
pub const STATUS_OK: u16 = 200;

/// Length of the synthetic blob served in mock mode.
pub const MOCK_BLOB_LEN: usize = 32768;

/// What the retriever does after an aggregator response.
#[derive(Debug, Clone, Copy, PartialEq, Eq)]
pub enum FetchStep {
    /// The response succeeded: hand its body on unchanged.
    Deliver,
    /// The response failed and attempts remain: wait, then ask again.
    RetryAfter { delay_ms: u64 },
    /// The last attempt failed.
    GiveUp { status: u16, attempts: u32 },
}

/// The delay before attempt `attempt + 1`: `250 ms * 2^(attempt - 1)`.
pub open spec fn backoff_spec(attempt: nat) -> int {
    BASE_BACKOFF_MS * pow2((attempt - 1) as nat)
}

/// The step owed after the response to attempt number `attempt`, which gave `status`.
pub open spec fn step_spec(attempt: nat, status: u16) -> FetchStep {
    if status == STATUS_OK {
        FetchStep::Deliver
    } else if attempt < MAX_ATTEMPTS {
        FetchStep::RetryAfter { delay_ms: backoff_spec(attempt) as u64 }
    } else {
        FetchStep::GiveUp { status, attempts: attempt as u32 }
    }
}

/// Retry bookkeeping for one blob.
pub struct RetryState {
    /// Attempts made so far.
    pub attempt: u32,
}

impl RetryState {
    pub open spec fn wf(&self) -> bool {
        self.attempt <= MAX_ATTEMPTS
    }

    /// No attempt made yet.
    pub fn new() -> (r: RetryState)
        ensures
            r.attempt == 0,
            r.wf(),
    {
        RetryState { attempt: 0 }
    }

    /// Whether another request may be sent.
    pub fn may_attempt(&self) -> (r: bool)
        ensures
            r == (self.attempt < MAX_ATTEMPTS),
    {
        self.attempt < MAX_ATTEMPTS
    }

    /// Records the status of the response to the next attempt and says what to do.
    pub fn record_response(&mut self, status: u16) -> (r: FetchStep)
        requires
            old(self).attempt < MAX_ATTEMPTS,
        ensures
            final(self).attempt == old(self).attempt + 1,
            final(self).wf(),
            r == step_spec(final(self).attempt as nat, status),
            r matches FetchStep::RetryAfter { .. } ==> final(self).attempt < MAX_ATTEMPTS,
    {
        self.attempt = self.attempt + 1;
        if status == STATUS_OK {
            FetchStep::Deliver
        } else if self.attempt < MAX_ATTEMPTS {
            FetchStep::RetryAfter { delay_ms: backoff_ms(self.attempt) }
        } else {
            FetchStep::GiveUp { status, attempts: self.attempt }
        }
    }
}

/// The delay after failed attempt `attempt`, in milliseconds.
pub fn backoff_ms(attempt: u32) -> (r: u64)
    requires
        1 <= attempt < MAX_ATTEMPTS,
    ensures
        r == backoff_spec(attempt as nat),
{
    proof {
        vstd::arithmetic::power2::lemma2_to64();
    }
    if attempt == 1 {
        assert(pow2(0) == 1);
        BASE_BACKOFF_MS
    } else {
        assert(pow2(1) == 2);
        BASE_BACKOFF_MS * 2
    }
}

/// The error reported once every attempt failed.
pub fn upstream_error(status: u16, attempts: u32, body: String) -> (r: VerifyError)
    ensures
        r == (VerifyError::UpstreamUnavailable { status, attempts, body }),
{
    VerifyError::UpstreamUnavailable { status, attempts, body }
}

/// The configuration value turns mock mode on: `1`, or `true` in any case.
pub open spec fn mock_flag_spec(v: Seq<u8>) -> bool {
    v == seq![0x31u8] || (v.len() == 4 && (v[0] == 0x74 || v[0] == 0x54) && (v[1] == 0x72
        || v[1] == 0x52) && (v[2] == 0x75 || v[2] == 0x55) && (v[3] == 0x65 || v[3] == 0x45))
}

/// The blob identifier names a test blob: it starts with `test_` or is `mock`.
pub open spec fn mock_id_spec(id: Seq<u8>) -> bool {
    (id.len() >= 5 && id.take(5) == seq![0x74u8, 0x65u8, 0x73u8, 0x74u8, 0x5fu8]) || id == seq![
        0x6du8,
        0x6fu8,
        0x63u8,
        0x6bu8,
    ]
}

/// Whether the configuration value enables mock mode.
pub fn mock_flag_enabled(flag: &str) -> (r: bool)
    ensures
        r == mock_flag_spec(flag.spec_bytes()),
{
    let v = flag.as_bytes();
    if v.len() == 1 {
        let r = v[0] == 0x31;
        assert(r ==> v@ =~= seq![0x31u8]);
        r
    } else if v.len() == 4 {
        (v[0] == 0x74 || v[0] == 0x54) && (v[1] == 0x72 || v[1] == 0x52) && (v[2] == 0x75 || v[2]
            == 0x55) && (v[3] == 0x65 || v[3] == 0x45)
    } else {
        false
    }
}

/// Whether `blob_id` names a test blob that mock mode serves locally.
pub fn is_mock_blob_id(blob_id: &str) -> (r: bool)
    ensures
        r == mock_id_spec(blob_id.spec_bytes()),
{
    let id = blob_id.as_bytes();
    if id.len() >= 5 && id[0] == 0x74 && id[1] == 0x65 && id[2] == 0x73 && id[3] == 0x74 && id[4]
        == 0x5f {
        assert(id@.take(5) =~= seq![0x74u8, 0x65u8, 0x73u8, 0x74u8, 0x5fu8]);
        return true;
    }
    if id.len() >= 5 {
        assert(id@.take(5)[0] == id@[0] && id@.take(5)[1] == id@[1] && id@.take(5)[2] == id@[2]
            && id@.take(5)[3] == id@[3] && id@.take(5)[4] == id@[4]);
    }
    if id.len() == 4 && id[0] == 0x6d && id[1] == 0x6f && id[2] == 0x63 && id[3] == 0x6b {
        assert(id@ =~= seq![0x6du8, 0x6fu8, 0x63u8, 0x6bu8]);
        return true;
    }
    proof {
        if id@ == seq![0x6du8, 0x6fu8, 0x63u8, 0x6bu8] {
            assert(id@[0] == 0x6d);
        }
    }
    false
}

/// Whether a request for `blob_id` is served from the synthetic generator.
pub fn serves_mock(flag: Option<&str>, blob_id: &str) -> (r: bool)
    ensures
        r == (flag matches Some(f) && mock_flag_spec(f.spec_bytes()) && mock_id_spec(
            blob_id.spec_bytes(),
        )),
{
    match flag {
        Some(f) => mock_flag_enabled(f) && is_mock_blob_id(blob_id),
        None => false,
    }
}

/// One repetition unit of the mock blob: `zkDataVault-mock:{id}:`, the byte `i`, and a
/// fixed sentence.
pub open spec fn mock_unit(id: Seq<u8>, i: u8) -> Seq<u8> {
    "zkDataVault-mock:".spec_bytes() + id + ":".spec_bytes() + seq![i]
        + "The quick brown fox jumps over the lazy dog. ".spec_bytes()
}

/// The units for the bytes `0..k`, in order.
pub open spec fn mock_units(id: Seq<u8>, k: nat) -> Seq<u8>
    decreases k,
{
    if k == 0 {
        Seq::empty()
    } else {
        mock_units(id, (k - 1) as nat) + mock_unit(id, (k - 1) as u8)
    }
}

/// The mock blob: the 64 units repeated and cut to 32 KiB.
pub open spec fn mock_blob_spec(id: Seq<u8>) -> Seq<u8> {
    let block = mock_units(id, 64);
    Seq::new(MOCK_BLOB_LEN as nat, |k: int| block[k % (block.len() as int)])
}

fn append_bytes(out: &mut Vec<u8>, src: &[u8])
    ensures
        final(out)@ == old(out)@ + src@,
{
    let mut i: usize = 0;
    while i < src.len()
        invariant
            i <= src@.len(),
            out@ == old(out)@ + src@.take(i as int),
        decreases src@.len() - i,
    {
        out.push(src[i]);
        i = i + 1;
        assert(out@ =~= old(out)@ + src@.take(i as int));
    }
    assert(src@.take(src@.len() as int) =~= src@);
}

/// A deterministic 32 KiB buffer derived from `blob_id`, varied enough to exercise every
/// analyzer.
pub fn generate_mock_blob(blob_id: &str) -> (r: Vec<u8>)
    ensures
        r@ == mock_blob_spec(blob_id.spec_bytes()),
        r@.len() == MOCK_BLOB_LEN,
{
    let id = blob_id.as_bytes();
    let prefix = "zkDataVault-mock:".as_bytes();
    let colon = ":".as_bytes();
    let sentence = "The quick brown fox jumps over the lazy dog. ".as_bytes();
    let mut block: Vec<u8> = Vec::new();
    let mut i: u8 = 0;
    while i < 64
        invariant
            i <= 64,
            id@ == blob_id.spec_bytes(),
            prefix@ == "zkDataVault-mock:".spec_bytes(),
            colon@ == ":".spec_bytes(),
            sentence@ == "The quick brown fox jumps over the lazy dog. ".spec_bytes(),
            block@ == mock_units(id@, i as nat),
        decreases 64 - i,
    {
        append_bytes(&mut block, prefix);
        append_bytes(&mut block, id);
        append_bytes(&mut block, colon);
        block.push(i);
        append_bytes(&mut block, sentence);
        assert(block@ =~= mock_units(id@, (i + 1) as nat));
        i = i + 1;
    }
    assert(mock_units(id@, 64) == mock_units(id@, 63) + mock_unit(id@, 63u8));
    assert(seq![63u8].len() == 1);
    assert(block@.len() > 0);
    let blen = block.len();
    let mut out: Vec<u8> = Vec::new();
    let mut k: usize = 0;
    while k < MOCK_BLOB_LEN
        invariant
            k <= MOCK_BLOB_LEN,
            blen == block@.len(),
            blen > 0,
            block@ == mock_units(id@, 64),
            id@ == blob_id.spec_bytes(),
            out@.len() == k,
            forall|j: int| 0 <= j < k ==> #[trigger] out@[j] == block@[j % blen as int],
        decreases MOCK_BLOB_LEN - k,
    {
        out.push(block[k % blen]);
        k = k + 1;
    }
    assert(out@ =~= mock_blob_spec(id@));
    out
}

} // verus!
