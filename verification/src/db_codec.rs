//! File formats of the timing history.
//!
//! Each part of the history (samples, flake counts, names) has a compacted file,
//! which starts with a four-byte mark, and a log of fixed or self-delimiting
//! entries that are replayed on top of it. All integers are little-endian. The
//! history is advisory: bytes that cannot be read are passed over.

use vstd::bytes::*;
use vstd::prelude::*;
use vstd::slice::*;
use vstd::utf8::*;

use crate::duration_db::{
    self, DurationSample, EnvHistory, EnvView, Environment, FlakeEntry, FlakeRecord, NameTable,
    PerfEntry,
};
use crate::result::{FailureClass, IdentityView, TestIdentity};
use crate::text::utf8_text;
use crate::variant::Variant;

verus! {

/// Bytes of one entry of the sample log.
pub const PERF_ENTRY: usize = 25;

/// Bytes of one entry of the flake log.
pub const FLAKE_ENTRY: usize = 19;

/// Longest text, in bytes, that is read back.
pub const MAX_TEXT: u32 = 10_000;

// ---------------------------------------------------------------------------
// Reading integers.

/// The 64-bit integer that `b` starts with.
pub open spec fn head_u64(b: Seq<u8>) -> u64 {
    spec_u64_from_le_bytes(b.take(8))
}

/// The 32-bit integer that `b` starts with.
pub open spec fn head_u32(b: Seq<u8>) -> u32 {
    spec_u32_from_le_bytes(b.take(4))
}

fn read_u64(b: &[u8], at: usize) -> (r: u64)
    requires
        at + 8 <= b.len(),
    ensures
        r == head_u64(b@.skip(at as int)),
{
    proof {
        assert(b@.subrange(at as int, at + 8) =~= b@.skip(at as int).take(8));
    }
    u64_from_le_bytes(slice_subrange(b, at, at + 8))
}

fn read_u32(b: &[u8], at: usize) -> (r: u32)
    requires
        at + 4 <= b.len(),
    ensures
        r == head_u32(b@.skip(at as int)),
{
    proof {
        assert(b@.subrange(at as int, at + 4) =~= b@.skip(at as int).take(4));
    }
    u32_from_le_bytes(slice_subrange(b, at, at + 4))
}

fn push_bytes(out: &mut Vec<u8>, tail: &[u8])
    ensures
        final(out)@ == old(out)@ + tail@,
{
    let mut i: usize = 0;
    while i < tail.len()
        invariant
            i <= tail@.len(),
            out@ == old(out)@ + tail@.take(i as int),
        decreases tail@.len() - i,
    {
        proof {
            assert(tail@.take(i + 1) =~= tail@.take(i as int).push(tail@[i as int]));
        }
        out.push(tail[i]);
        i = i + 1;
    }
    proof {
        assert(tail@.take(tail@.len() as int) =~= tail@);
    }
}

fn push_u64(out: &mut Vec<u8>, n: u64)
    ensures
        final(out)@ == old(out)@ + spec_u64_to_le_bytes(n),
{
    let bytes: Vec<u8> = u64_to_le_bytes(n);
    push_bytes(out, bytes.as_slice());
}

fn push_u32(out: &mut Vec<u8>, n: u32)
    ensures
        final(out)@ == old(out)@ + spec_u32_to_le_bytes(n),
{
    let bytes: Vec<u8> = u32_to_le_bytes(n);
    push_bytes(out, bytes.as_slice());
}

/// Reading back a written integer.
pub proof fn lemma_u64_reads_back(n: u64, tail: Seq<u8>)
    ensures
        spec_u64_to_le_bytes(n).len() == 8,
        head_u64(spec_u64_to_le_bytes(n) + tail) == n,
        (spec_u64_to_le_bytes(n) + tail).skip(8) == tail,
{
    vstd::bytes::lemma_auto_spec_u64_to_from_le_bytes();
    assert(spec_u64_to_le_bytes(n).len() == 8);
    assert((spec_u64_to_le_bytes(n) + tail).take(8) =~= spec_u64_to_le_bytes(n));
    assert((spec_u64_to_le_bytes(n) + tail).skip(8) =~= tail);
}

/// Reading back a written integer.
pub proof fn lemma_u32_reads_back(n: u32, tail: Seq<u8>)
    ensures
        spec_u32_to_le_bytes(n).len() == 4,
        head_u32(spec_u32_to_le_bytes(n) + tail) == n,
        (spec_u32_to_le_bytes(n) + tail).skip(4) == tail,
{
    vstd::bytes::lemma_auto_spec_u32_to_from_le_bytes();
    assert(spec_u32_to_le_bytes(n).len() == 4);
    assert((spec_u32_to_le_bytes(n) + tail).take(4) =~= spec_u32_to_le_bytes(n));
    assert((spec_u32_to_le_bytes(n) + tail).skip(4) =~= tail);
}

// ---------------------------------------------------------------------------
// Codes.

/// The byte of an environment.
pub open spec fn env_code(env: Environment) -> u8 {
    match env {
        Environment::Local => 0,
        Environment::Remote => 1,
    }
}

fn env_byte(env: Environment) -> (r: u8)
    ensures
        r == env_code(env),
{
    match env {
        Environment::Local => 0,
        Environment::Remote => 1,
    }
}

/// The byte of a failure class, zero for none.
pub open spec fn class_code(class: Option<FailureClass>) -> u8 {
    match class {
        Some(FailureClass::Fail) => 1,
        Some(FailureClass::Fatal) => 2,
        Some(FailureClass::Timeout) => 3,
        Some(FailureClass::Infra) => 4,
        None => 0,
    }
}

/// The failure class of a byte.
pub open spec fn class_of_code(code: u8) -> Option<FailureClass> {
    if code == 1 {
        Some(FailureClass::Fail)
    } else if code == 2 {
        Some(FailureClass::Fatal)
    } else if code == 3 {
        Some(FailureClass::Timeout)
    } else if code == 4 {
        Some(FailureClass::Infra)
    } else {
        None
    }
}

fn failure_class_to_u8(class: Option<FailureClass>) -> (r: u8)
    ensures
        r == class_code(class),
{
    match class {
        Some(FailureClass::Fail) => 1,
        Some(FailureClass::Fatal) => 2,
        Some(FailureClass::Timeout) => 3,
        Some(FailureClass::Infra) => 4,
        None => 0,
    }
}

fn failure_class_from_u8(code: u8) -> (r: Option<FailureClass>)
    ensures
        r == class_of_code(code),
{
    if code == 1 {
        Some(FailureClass::Fail)
    } else if code == 2 {
        Some(FailureClass::Fatal)
    } else if code == 3 {
        Some(FailureClass::Timeout)
    } else if code == 4 {
        Some(FailureClass::Infra)
    } else {
        None
    }
}

// ---------------------------------------------------------------------------
// The compacted sample file.

/// Reads up to `n` samples off `b` behind `acc`; gives the samples and what is
/// left. A sample that is cut short uses `b` up.
pub open spec fn samples_read(b: Seq<u8>, n: nat, acc: Seq<DurationSample>) -> (
    Seq<DurationSample>,
    Seq<u8>,
)
    decreases n,
{
    if n == 0 {
        (acc, b)
    } else if b.len() < 16 {
        (acc, Seq::empty())
    } else {
        let sample = DurationSample {
            timestamp_ms: head_u64(b),
            duration_ms: head_u64(b.skip(8)),
        };
        samples_read(b.skip(16), (n - 1) as nat, acc.push(sample))
    }
}

/// Reads up to `n` keyed groups of samples off `b` into `m`; gives the map and
/// what is left.
pub open spec fn perf_read(b: Seq<u8>, n: nat, m: Map<u64, Seq<DurationSample>>) -> (
    Map<u64, Seq<DurationSample>>,
    Seq<u8>,
)
    decreases n,
{
    if n == 0 {
        (m, b)
    } else if b.len() < 9 {
        (m, Seq::empty())
    } else {
        let group = samples_read(b.skip(9), b[8] as nat, Seq::empty());
        perf_read(group.1, (n - 1) as nat, m.insert(head_u64(b), group.0))
    }
}

/// Reads one environment's section, which starts with its number of groups.
pub open spec fn perf_section_read(b: Seq<u8>, m: Map<u64, Seq<DurationSample>>) -> (
    Map<u64, Seq<DurationSample>>,
    Seq<u8>,
) {
    if b.len() < 4 {
        (m, Seq::empty())
    } else {
        perf_read(b.skip(4), head_u32(b) as nat, m)
    }
}

/// The mark of a compacted file.
pub open spec fn marked(b: Seq<u8>, mark: Seq<u8>) -> bool {
    b.len() >= 4 && b.take(4) == mark
}

/// The mark of the compacted sample file.
pub open spec fn perf_mark() -> Seq<u8> {
    seq![0x50u8, 0x52u8, 0x46u8, 0x31u8]
}

/// The mark of the compacted flake file.
pub open spec fn flake_mark() -> Seq<u8> {
    seq![0x46u8, 0x4cu8, 0x4bu8, 0x31u8]
}

/// The mark of the compacted name file.
pub open spec fn names_mark() -> Seq<u8> {
    seq![0x4eu8, 0x4du8, 0x53u8, 0x31u8]
}

fn has_mark(b: &[u8], m0: u8, m1: u8, m2: u8, m3: u8) -> (r: bool)
    ensures
        r == marked(b@, seq![m0, m1, m2, m3]),
{
    let r: bool = b.len() >= 4 && b[0] == m0 && b[1] == m1 && b[2] == m2 && b[3] == m3;
    proof {
        if b@.len() >= 4 {
            if r {
                assert(b@.take(4) =~= seq![m0, m1, m2, m3]);
            } else if b@.take(4) == seq![m0, m1, m2, m3] {
                assert(b@.take(4)[0] == m0 && b@.take(4)[1] == m1 && b@.take(4)[2] == m2
                    && b@.take(4)[3] == m3);
            }
        }
    }
    r
}

/// The samples of both environments after reading the compacted file.
pub open spec fn perf_bin_read(
    b: Seq<u8>,
    local: Map<u64, Seq<DurationSample>>,
    remote: Map<u64, Seq<DurationSample>>,
) -> (Map<u64, Seq<DurationSample>>, Map<u64, Seq<DurationSample>>) {
    if marked(b, perf_mark()) {
        let first = perf_section_read(b.skip(4), local);
        (first.0, perf_section_read(first.1, remote).0)
    } else {
        (local, remote)
    }
}

fn read_samples(b: &[u8], from: usize, n: u8) -> (r: (Vec<DurationSample>, usize))
    requires
        from <= b@.len(),
    ensures
        from <= r.1 <= b@.len(),
        (r.0@, b@.skip(r.1 as int)) == samples_read(b@.skip(from as int), n as nat, Seq::empty()),
{
    let mut out: Vec<DurationSample> = Vec::new();
    let mut at: usize = from;
    let mut left: u8 = n;
    while left > 0
        invariant
            from <= at <= b@.len(),
            samples_read(b@.skip(from as int), n as nat, Seq::empty()) == samples_read(
                b@.skip(at as int),
                left as nat,
                out@,
            ),
        decreases left,
    {
        if b.len() - at < 16 {
            proof {
                assert(b@.skip(b@.len() as int) =~= Seq::<u8>::empty());
            }
            return (out, b.len());
        }
        let sample = DurationSample {
            timestamp_ms: read_u64(b, at),
            duration_ms: read_u64(b, at + 8),
        };
        proof {
            assert(b@.skip(at as int).skip(8) =~= b@.skip(at + 8));
            assert(b@.skip(at as int).skip(16) =~= b@.skip(at + 16));
        }
        out.push(sample);
        at = at + 16;
        left = left - 1;
    }
    (out, at)
}

fn read_perf_section(b: &[u8], from: usize, history: &mut EnvHistory) -> (r: usize)
    requires
        from <= b@.len(),
    ensures
        from <= r <= b@.len(),
        (final(history)@.perf, b@.skip(r as int)) == perf_section_read(
            b@.skip(from as int),
            old(history)@.perf,
        ),
        final(history)@.flake == old(history)@.flake,
{
    if b.len() - from < 4 {
        proof {
            assert(b@.skip(b@.len() as int) =~= Seq::<u8>::empty());
        }
        return b.len();
    }
    let n: u32 = read_u32(b, from);
    let mut at: usize = from + 4;
    let mut left: u32 = n;
    proof {
        assert(b@.skip(from as int).skip(4) =~= b@.skip(at as int));
    }
    while left > 0
        invariant
            from <= at <= b@.len(),
            perf_section_read(b@.skip(from as int), old(history)@.perf) == perf_read(
                b@.skip(at as int),
                left as nat,
                history@.perf,
            ),
            history@.flake == old(history)@.flake,
        decreases left,
    {
        if b.len() - at < 9 {
            proof {
                assert(b@.skip(b@.len() as int) =~= Seq::<u8>::empty());
            }
            return b.len();
        }
        let key: u64 = read_u64(b, at);
        proof {
            assert(b@.skip(at as int)[8] == b@[at + 8]);
            assert(b@.skip(at as int).skip(9) =~= b@.skip(at + 9));
        }
        let group: (Vec<DurationSample>, usize) = read_samples(b, at + 9, b[at + 8]);
        history.put_samples(key, group.0);
        at = group.1;
        left = left - 1;
    }
    at
}

/// Reads the compacted sample file into both histories.
pub(crate) fn read_perf_bin(b: &[u8], local: &mut EnvHistory, remote: &mut EnvHistory)
    ensures
        (final(local)@.perf, final(remote)@.perf) == perf_bin_read(
            b@,
            old(local)@.perf,
            old(remote)@.perf,
        ),
        final(local)@.flake == old(local)@.flake,
        final(remote)@.flake == old(remote)@.flake,
{
    if has_mark(b, 0x50, 0x52, 0x46, 0x31) {
        let next: usize = read_perf_section(b, 4, local);
        let _end: usize = read_perf_section(b, next, remote);
    }
}

// ---------------------------------------------------------------------------
// The compacted flake file.

/// The record that a flake group holds behind its key. The largest timestamp
/// stands for no failure.
pub open spec fn flake_group(b: Seq<u8>) -> FlakeRecord {
    let ts = head_u64(b.skip(24));
    FlakeRecord {
        runs: head_u64(b.skip(8)),
        failures: head_u64(b.skip(16)),
        last_failure_timestamp_ms: if ts == u64::MAX {
            None
        } else {
            Some(ts)
        },
        last_failure_class: class_of_code(b[32]),
    }
}

/// Reads up to `n` flake groups off `b` into `m`; gives the map and what is left.
pub open spec fn flake_read(b: Seq<u8>, n: nat, m: Map<u64, FlakeRecord>) -> (
    Map<u64, FlakeRecord>,
    Seq<u8>,
)
    decreases n,
{
    if n == 0 {
        (m, b)
    } else if b.len() < 33 {
        (m, Seq::empty())
    } else {
        flake_read(b.skip(33), (n - 1) as nat, m.insert(head_u64(b), flake_group(b)))
    }
}

/// Reads one environment's section, which starts with its number of groups.
pub open spec fn flake_section_read(b: Seq<u8>, m: Map<u64, FlakeRecord>) -> (
    Map<u64, FlakeRecord>,
    Seq<u8>,
) {
    if b.len() < 4 {
        (m, Seq::empty())
    } else {
        flake_read(b.skip(4), head_u32(b) as nat, m)
    }
}

/// The flake records of both environments after reading the compacted file.
pub open spec fn flake_bin_read(
    b: Seq<u8>,
    local: Map<u64, FlakeRecord>,
    remote: Map<u64, FlakeRecord>,
) -> (Map<u64, FlakeRecord>, Map<u64, FlakeRecord>) {
    if marked(b, flake_mark()) {
        let first = flake_section_read(b.skip(4), local);
        (first.0, flake_section_read(first.1, remote).0)
    } else {
        (local, remote)
    }
}

fn read_flake_section(b: &[u8], from: usize, history: &mut EnvHistory) -> (r: usize)
    requires
        from <= b@.len(),
    ensures
        from <= r <= b@.len(),
        (final(history)@.flake, b@.skip(r as int)) == flake_section_read(
            b@.skip(from as int),
            old(history)@.flake,
        ),
        final(history)@.perf == old(history)@.perf,
{
    if b.len() - from < 4 {
        proof {
            assert(b@.skip(b@.len() as int) =~= Seq::<u8>::empty());
        }
        return b.len();
    }
    let n: u32 = read_u32(b, from);
    let mut at: usize = from + 4;
    let mut left: u32 = n;
    proof {
        assert(b@.skip(from as int).skip(4) =~= b@.skip(at as int));
    }
    while left > 0
        invariant
            from <= at <= b@.len(),
            flake_section_read(b@.skip(from as int), old(history)@.flake) == flake_read(
                b@.skip(at as int),
                left as nat,
                history@.flake,
            ),
            history@.perf == old(history)@.perf,
        decreases left,
    {
        if b.len() - at < 33 {
            proof {
                assert(b@.skip(b@.len() as int) =~= Seq::<u8>::empty());
            }
            return b.len();
        }
        let key: u64 = read_u64(b, at);
        let ts: u64 = read_u64(b, at + 24);
        proof {
            assert(b@.skip(at as int).skip(8) =~= b@.skip(at + 8));
            assert(b@.skip(at as int).skip(16) =~= b@.skip(at + 16));
            assert(b@.skip(at as int).skip(24) =~= b@.skip(at + 24));
            assert(b@.skip(at as int).skip(33) =~= b@.skip(at + 33));
            assert(b@.skip(at as int)[32] == b@[at + 32]);
        }
        let record = FlakeRecord {
            runs: read_u64(b, at + 8),
            failures: read_u64(b, at + 16),
            last_failure_timestamp_ms: if ts == u64::MAX {
                None
            } else {
                Some(ts)
            },
            last_failure_class: failure_class_from_u8(b[at + 32]),
        };
        history.put_flakes(key, record);
        at = at + 33;
        left = left - 1;
    }
    at
}

/// Reads the compacted flake file into both histories.
pub(crate) fn read_flake_bin(b: &[u8], local: &mut EnvHistory, remote: &mut EnvHistory)
    ensures
        (final(local)@.flake, final(remote)@.flake) == flake_bin_read(
            b@,
            old(local)@.flake,
            old(remote)@.flake,
        ),
        final(local)@.perf == old(local)@.perf,
        final(remote)@.perf == old(remote)@.perf,
{
    if has_mark(b, 0x46, 0x4c, 0x4b, 0x31) {
        let next: usize = read_flake_section(b, 4, local);
        let _end: usize = read_flake_section(b, next, remote);
    }
}

// ---------------------------------------------------------------------------
// The logs.

/// The histories of the two environments.
pub struct Histories {
    pub local: EnvView,
    pub remote: EnvView,
}

impl Histories {
    /// The histories after one log entry of the sample log. An entry of an
    /// unknown environment is passed over.
    pub open spec fn with_perf_entry(self, entry: Seq<u8>) -> Histories {
        let key = head_u64(entry.skip(1));
        let sample = DurationSample {
            timestamp_ms: head_u64(entry.skip(9)),
            duration_ms: head_u64(entry.skip(17)),
        };
        if entry[0] == 0 {
            Histories { local: duration_db::with_sample(self.local, key, sample), ..self }
        } else if entry[0] == 1 {
            Histories { remote: duration_db::with_sample(self.remote, key, sample), ..self }
        } else {
            self
        }
    }

    /// The histories after one log entry of the flake log. An entry of an
    /// unknown environment is passed over.
    pub open spec fn with_flake_entry(self, entry: Seq<u8>) -> Histories {
        let key = head_u64(entry.skip(1));
        let failed = entry[9] != 0;
        let class = class_of_code(entry[10]);
        let ts = head_u64(entry.skip(11));
        if entry[0] == 0 {
            Histories {
                local: crate::duration_db::with_counted(self.local, key, failed, class, ts),
                ..self
            }
        } else if entry[0] == 1 {
            Histories {
                remote: crate::duration_db::with_counted(self.remote, key, failed, class, ts),
                ..self
            }
        } else {
            self
        }
    }
}

/// The histories after replaying the sample log `b`. An incomplete last entry
/// is passed over.
pub open spec fn perf_replayed(b: Seq<u8>, h: Histories) -> Histories
    decreases b.len(),
{
    if b.len() < PERF_ENTRY {
        h
    } else {
        perf_replayed(
            b.skip(PERF_ENTRY as int),
            h.with_perf_entry(b.take(PERF_ENTRY as int)),
        )
    }
}

/// The histories after replaying the flake log `b`. An incomplete last entry is
/// passed over.
pub open spec fn flake_replayed(b: Seq<u8>, h: Histories) -> Histories
    decreases b.len(),
{
    if b.len() < FLAKE_ENTRY {
        h
    } else {
        flake_replayed(
            b.skip(FLAKE_ENTRY as int),
            h.with_flake_entry(b.take(FLAKE_ENTRY as int)),
        )
    }
}

/// Replays the sample log into both histories.
pub(crate) fn replay_perf_log(b: &[u8], local: &mut EnvHistory, remote: &mut EnvHistory)
    ensures
        (Histories { local: final(local)@, remote: final(remote)@ }) == perf_replayed(
            b@,
            Histories { local: old(local)@, remote: old(remote)@ },
        ),
{
    let mut i: usize = 0;
    proof {
        assert(b@.skip(0) =~= b@);
    }
    while b.len() - i >= PERF_ENTRY
        invariant
            i <= b@.len(),
            perf_replayed(b@, Histories { local: old(local)@, remote: old(remote)@ })
                == perf_replayed(
                b@.skip(i as int),
                Histories { local: local@, remote: remote@ },
            ),
        decreases b@.len() - i,
    {
        let code: u8 = b[i];
        let key: u64 = read_u64(b, i + 1);
        let ts: u64 = read_u64(b, i + 9);
        let dur: u64 = read_u64(b, i + 17);
        proof {
            let entry = b@.skip(i as int).take(PERF_ENTRY as int);
            assert(entry[0] == b@[i as int]);
            assert(entry.skip(1).take(8) =~= b@.skip(i + 1).take(8));
            assert(entry.skip(9).take(8) =~= b@.skip(i + 9).take(8));
            assert(entry.skip(17).take(8) =~= b@.skip(i + 17).take(8));
            assert(b@.skip(i as int).skip(PERF_ENTRY as int) =~= b@.skip(i + PERF_ENTRY));
        }
        if code == 0 {
            local.add_sample(key, ts, dur);
        } else if code == 1 {
            remote.add_sample(key, ts, dur);
        }
        i = i + PERF_ENTRY;
    }
}

/// Replays the flake log into both histories.
pub(crate) fn replay_flake_log(b: &[u8], local: &mut EnvHistory, remote: &mut EnvHistory)
    ensures
        (Histories { local: final(local)@, remote: final(remote)@ }) == flake_replayed(
            b@,
            Histories { local: old(local)@, remote: old(remote)@ },
        ),
{
    let mut i: usize = 0;
    proof {
        assert(b@.skip(0) =~= b@);
    }
    while b.len() - i >= FLAKE_ENTRY
        invariant
            i <= b@.len(),
            flake_replayed(b@, Histories { local: old(local)@, remote: old(remote)@ })
                == flake_replayed(
                b@.skip(i as int),
                Histories { local: local@, remote: remote@ },
            ),
        decreases b@.len() - i,
    {
        let code: u8 = b[i];
        let key: u64 = read_u64(b, i + 1);
        let failed: bool = b[i + 9] != 0;
        let class: Option<FailureClass> = failure_class_from_u8(b[i + 10]);
        let ts: u64 = read_u64(b, i + 11);
        proof {
            let entry = b@.skip(i as int).take(FLAKE_ENTRY as int);
            assert(entry[0] == b@[i as int]);
            assert(entry[9] == b@[i + 9]);
            assert(entry[10] == b@[i + 10]);
            assert(entry.skip(1).take(8) =~= b@.skip(i + 1).take(8));
            assert(entry.skip(11).take(8) =~= b@.skip(i + 11).take(8));
            assert(b@.skip(i as int).skip(FLAKE_ENTRY as int) =~= b@.skip(i + FLAKE_ENTRY));
        }
        if code == 0 {
            local.count_run(key, failed, class, ts);
        } else if code == 1 {
            remote.count_run(key, failed, class, ts);
        }
        i = i + FLAKE_ENTRY;
    }
}

// ---------------------------------------------------------------------------
// Names.

/// Reads a text with a length before it; gives the text, when it is readable,
/// and what is left.
pub open spec fn text_read(b: Seq<u8>) -> (Option<Seq<char>>, Seq<u8>) {
    if b.len() < 4 {
        (None, Seq::empty())
    } else {
        let n = head_u32(b) as int;
        let rest = b.skip(4);
        if n > MAX_TEXT {
            (None, rest)
        } else if rest.len() < n {
            (None, Seq::empty())
        } else if valid_utf8(rest.take(n)) {
            (Some(decode_utf8(rest.take(n))), rest.skip(n))
        } else {
            (None, rest.skip(n))
        }
    }
}

/// Reads the three texts of an identity; gives up at the first that cannot be
/// read.
pub open spec fn identity_read(b: Seq<u8>) -> (Option<IdentityView>, Seq<u8>) {
    let target = text_read(b);
    match target.0 {
        None => (None, target.1),
        Some(t) => {
            let name = text_read(target.1);
            match name.0 {
                None => (None, name.1),
                Some(n) => {
                    let variant = text_read(name.1);
                    match variant.0 {
                        None => (None, variant.1),
                        Some(v) => (
                            Some(IdentityView { target: t, name: n, variant: v }),
                            variant.1,
                        ),
                    }
                },
            }
        },
    }
}

/// `m` with the identity under `key`, when there is one.
pub open spec fn named(m: Map<u64, IdentityView>, key: u64, id: Option<IdentityView>) -> Map<
    u64,
    IdentityView,
> {
    match id {
        Some(i) => m.insert(key, i),
        None => m,
    }
}

/// Reads up to `n` keyed identities off `b` into `m`; gives the map and what is
/// left.
pub open spec fn names_read(b: Seq<u8>, n: nat, m: Map<u64, IdentityView>) -> (
    Map<u64, IdentityView>,
    Seq<u8>,
)
    decreases n,
{
    if n == 0 {
        (m, b)
    } else if b.len() < 8 {
        (m, Seq::empty())
    } else {
        let id = identity_read(b.skip(8));
        names_read(id.1, (n - 1) as nat, named(m, head_u64(b), id.0))
    }
}

/// The names after reading the compacted file.
pub open spec fn names_bin_read(b: Seq<u8>, m: Map<u64, IdentityView>) -> Map<u64, IdentityView> {
    if marked(b, names_mark()) && b.len() >= 8 {
        names_read(b.skip(8), head_u32(b.skip(4)) as nat, m).0
    } else {
        m
    }
}

/// The names after replaying the log `b`.
pub open spec fn names_replayed(b: Seq<u8>, m: Map<u64, IdentityView>) -> Map<u64, IdentityView>
    decreases b.len(),
{
    if b.len() < 8 {
        m
    } else {
        proof {
            lemma_identity_read_shrinks(b.skip(8));
        }
        let id = identity_read(b.skip(8));
        names_replayed(id.1, named(m, head_u64(b), id.0))
    }
}

/// Reading an identity leaves no more than there was.
pub proof fn lemma_identity_read_shrinks(b: Seq<u8>)
    ensures
        identity_read(b).1.len() <= b.len(),
{
}

fn read_string(b: &[u8], from: usize) -> (r: (Option<String>, usize))
    requires
        from <= b@.len(),
    ensures
        from <= r.1 <= b@.len(),
        r.0 is Some <==> text_read(b@.skip(from as int)).0 is Some,
        r.0 matches Some(s) ==> text_read(b@.skip(from as int)).0 == Some(s@),
        b@.skip(r.1 as int) == text_read(b@.skip(from as int)).1,
{
    proof {
        assert(b@.skip(b@.len() as int) =~= Seq::<u8>::empty());
    }
    if b.len() - from < 4 {
        return (None, b.len());
    }
    let n: u32 = read_u32(b, from);
    let at: usize = from + 4;
    proof {
        assert(b@.skip(from as int).skip(4) =~= b@.skip(at as int));
    }
    if n > MAX_TEXT {
        return (None, at);
    }
    if b.len() - at < n as usize {
        return (None, b.len());
    }
    let end: usize = at + n as usize;
    let mut bytes: Vec<u8> = Vec::new();
    push_bytes(&mut bytes, slice_subrange(b, at, end));
    proof {
        assert(bytes@ =~= b@.skip(at as int).take(n as int));
        assert(b@.skip(at as int).skip(n as int) =~= b@.skip(end as int));
    }
    (utf8_text(bytes), end)
}

fn read_test_identity(b: &[u8], from: usize) -> (r: (Option<TestIdentity>, usize))
    requires
        from <= b@.len(),
    ensures
        from <= r.1 <= b@.len(),
        r.0 is Some <==> identity_read(b@.skip(from as int)).0 is Some,
        r.0 matches Some(id) ==> identity_read(b@.skip(from as int)).0 == Some(id@),
        b@.skip(r.1 as int) == identity_read(b@.skip(from as int)).1,
{
    let first: (Option<String>, usize) = read_string(b, from);
    let target: String = match first.0 {
        Some(t) => t,
        None => {
            return (None, first.1);
        },
    };
    let second: (Option<String>, usize) = read_string(b, first.1);
    let name: String = match second.0 {
        Some(n) => n,
        None => {
            return (None, second.1);
        },
    };
    let third: (Option<String>, usize) = read_string(b, second.1);
    let variant: String = match third.0 {
        Some(v) => v,
        None => {
            return (None, third.1);
        },
    };
    let id = TestIdentity { target, name, variant: Variant::parse(variant.as_str()) };
    (Some(id), third.1)
}

/// Reads the compacted name file into `names`.
pub(crate) fn read_names_bin(b: &[u8], names: &mut NameTable)
    ensures
        final(names)@ == names_bin_read(b@, old(names)@),
{
    if !has_mark(b, 0x4e, 0x4d, 0x53, 0x31) || b.len() < 8 {
        return;
    }
    let mut left: u32 = read_u32(b, 4);
    let mut at: usize = 8;
    while left > 0 && b.len() - at >= 8
        invariant
            at <= b@.len(),
            names_bin_read(b@, old(names)@) == names_read(
                b@.skip(at as int),
                left as nat,
                names@,
            ).0,
        decreases left,
    {
        let key: u64 = read_u64(b, at);
        proof {
            assert(b@.skip(at as int).skip(8) =~= b@.skip(at + 8));
        }
        let read: (Option<TestIdentity>, usize) = read_test_identity(b, at + 8);
        if let Some(id) = read.0 {
            names.put(key, id);
        }
        at = read.1;
        left = left - 1;
    }
}

/// Replays the name log into `names`.
pub(crate) fn replay_names_log(b: &[u8], names: &mut NameTable)
    ensures
        final(names)@ == names_replayed(b@, old(names)@),
{
    let mut at: usize = 0;
    proof {
        assert(b@.skip(0) =~= b@);
    }
    while b.len() - at >= 8
        invariant
            at <= b@.len(),
            names_replayed(b@, old(names)@) == names_replayed(b@.skip(at as int), names@),
        decreases b@.len() - at,
    {
        let key: u64 = read_u64(b, at);
        proof {
            assert(b@.skip(at as int).skip(8) =~= b@.skip(at + 8));
        }
        let read: (Option<TestIdentity>, usize) = read_test_identity(b, at + 8);
        if let Some(id) = read.0 {
            names.put(key, id);
        }
        at = read.1;
    }
}

// ---------------------------------------------------------------------------
// Writing the logs.

/// The bytes of one entry of the sample log.
pub open spec fn perf_entry_bytes(e: PerfEntry) -> Seq<u8> {
    seq![env_code(e.env)] + spec_u64_to_le_bytes(e.key) + spec_u64_to_le_bytes(e.timestamp_ms)
        + spec_u64_to_le_bytes(e.duration_ms)
}

/// The bytes of entries of the sample log.
pub open spec fn perf_log_bytes(es: Seq<PerfEntry>) -> Seq<u8>
    decreases es.len(),
{
    if es.len() == 0 {
        Seq::empty()
    } else {
        perf_log_bytes(es.drop_last()) + perf_entry_bytes(es.last())
    }
}

/// The bytes of one entry of the flake log.
pub open spec fn flake_entry_bytes(e: FlakeEntry) -> Seq<u8> {
    let failed: u8 = if e.failed {
        1
    } else {
        0
    };
    seq![env_code(e.env)] + spec_u64_to_le_bytes(e.key) + seq![failed, class_code(e.class)]
        + spec_u64_to_le_bytes(e.timestamp_ms)
}

/// The bytes of entries of the flake log.
pub open spec fn flake_log_bytes(es: Seq<FlakeEntry>) -> Seq<u8>
    decreases es.len(),
{
    if es.len() == 0 {
        Seq::empty()
    } else {
        flake_log_bytes(es.drop_last()) + flake_entry_bytes(es.last())
    }
}

/// The bytes of a text, with its length before it.
pub open spec fn text_bytes(text: Seq<char>) -> Seq<u8> {
    spec_u32_to_le_bytes(encode_utf8(text).len() as u32) + encode_utf8(text)
}

/// The bytes of an identity.
pub open spec fn identity_bytes(id: IdentityView) -> Seq<u8> {
    text_bytes(id.target) + text_bytes(id.name) + text_bytes(id.variant)
}

/// The bytes of one entry of the name log.
pub open spec fn name_entry_bytes(entry: (u64, IdentityView)) -> Seq<u8> {
    spec_u64_to_le_bytes(entry.0) + identity_bytes(entry.1)
}

/// The bytes of entries of the name log.
pub open spec fn names_log_bytes(es: Seq<(u64, IdentityView)>) -> Seq<u8>
    decreases es.len(),
{
    if es.len() == 0 {
        Seq::empty()
    } else {
        names_log_bytes(es.drop_last()) + name_entry_bytes(es.last())
    }
}

/// The contents of name entries.
pub open spec fn name_entries(es: Seq<(u64, TestIdentity)>) -> Seq<(u64, IdentityView)> {
    Seq::new(es.len(), |i: int| (es[i].0, es[i].1@))
}

/// The bytes of entries of the sample log.
pub(crate) fn perf_log(es: &Vec<PerfEntry>) -> (r: Vec<u8>)
    ensures
        r@ == perf_log_bytes(es@),
{
    let mut out: Vec<u8> = Vec::new();
    let mut i: usize = 0;
    while i < es.len()
        invariant
            i <= es@.len(),
            out@ == perf_log_bytes(es@.take(i as int)),
        decreases es@.len() - i,
    {
        let e: PerfEntry = es[i];
        let ghost before = out@;
        out.push(env_byte(e.env));
        push_u64(&mut out, e.key);
        push_u64(&mut out, e.timestamp_ms);
        push_u64(&mut out, e.duration_ms);
        proof {
            assert(out@ =~= before + perf_entry_bytes(e));
            assert(es@.take(i + 1).drop_last() =~= es@.take(i as int));
        }
        i = i + 1;
    }
    proof {
        assert(es@.take(es@.len() as int) =~= es@);
    }
    out
}

/// The bytes of entries of the flake log.
pub(crate) fn flake_log(es: &Vec<FlakeEntry>) -> (r: Vec<u8>)
    ensures
        r@ == flake_log_bytes(es@),
{
    let mut out: Vec<u8> = Vec::new();
    let mut i: usize = 0;
    while i < es.len()
        invariant
            i <= es@.len(),
            out@ == flake_log_bytes(es@.take(i as int)),
        decreases es@.len() - i,
    {
        let e: FlakeEntry = es[i];
        let ghost before = out@;
        out.push(env_byte(e.env));
        push_u64(&mut out, e.key);
        out.push(
            if e.failed {
                1
            } else {
                0
            },
        );
        out.push(failure_class_to_u8(e.class));
        push_u64(&mut out, e.timestamp_ms);
        proof {
            assert(out@ =~= before + flake_entry_bytes(e));
            assert(es@.take(i + 1).drop_last() =~= es@.take(i as int));
        }
        i = i + 1;
    }
    proof {
        assert(es@.take(es@.len() as int) =~= es@);
    }
    out
}

fn write_string(out: &mut Vec<u8>, text: &str)
    ensures
        final(out)@ == old(out)@ + text_bytes(text@),
{
    let bytes: &[u8] = text.as_bytes();
    push_u32(out, #[verifier::truncate] (bytes.len() as u32));
    push_bytes(out, bytes);
    proof {
        assert(out@ =~= old(out)@ + text_bytes(text@));
    }
}

fn write_test_identity(out: &mut Vec<u8>, id: &TestIdentity)
    ensures
        final(out)@ == old(out)@ + identity_bytes(id@),
{
    write_string(out, id.target.as_str());
    write_string(out, id.name.as_str());
    let variant: String = id.variant.label();
    write_string(out, variant.as_str());
    proof {
        assert(out@ =~= old(out)@ + identity_bytes(id@));
    }
}

/// The bytes of entries of the name log.
pub(crate) fn names_log(es: &Vec<(u64, TestIdentity)>) -> (r: Vec<u8>)
    ensures
        r@ == names_log_bytes(name_entries(es@)),
{
    let mut out: Vec<u8> = Vec::new();
    let mut i: usize = 0;
    proof {
        assert(name_entries(es@).take(0) =~= Seq::empty());
    }
    while i < es.len()
        invariant
            i <= es@.len(),
            out@ == names_log_bytes(name_entries(es@).take(i as int)),
        decreases es@.len() - i,
    {
        let ghost before = out@;
        push_u64(&mut out, es[i].0);
        write_test_identity(&mut out, &es[i].1);
        proof {
            let all = name_entries(es@);
            assert(out@ =~= before + name_entry_bytes(all[i as int]));
            assert(all.take(i + 1).drop_last() =~= all.take(i as int));
            assert(all.take(i + 1).last() == all[i as int]);
        }
        i = i + 1;
    }
    proof {
        assert(name_entries(es@).take(es@.len() as int) =~= name_entries(es@));
    }
    out
}

// ---------------------------------------------------------------------------
// Writing the compacted files.

/// The bytes of samples.
pub open spec fn samples_bytes(s: Seq<DurationSample>) -> Seq<u8>
    decreases s.len(),
{
    if s.len() == 0 {
        Seq::empty()
    } else {
        samples_bytes(s.drop_last()) + (spec_u64_to_le_bytes(s.last().timestamp_ms)
            + spec_u64_to_le_bytes(s.last().duration_ms))
    }
}

/// The bytes of one keyed group of samples.
pub open spec fn perf_group_bytes(key: u64, s: Seq<DurationSample>) -> Seq<u8> {
    spec_u64_to_le_bytes(key) + seq![s.len() as u8] + samples_bytes(s)
}

/// The bytes of the groups of the keys in `order`.
pub open spec fn perf_groups_bytes(order: Seq<u64>, m: Map<u64, Seq<DurationSample>>) -> Seq<u8>
    decreases order.len(),
{
    if order.len() == 0 {
        Seq::empty()
    } else {
        perf_groups_bytes(order.drop_last(), m) + perf_group_bytes(order.last(), m[order.last()])
    }
}

/// The bytes of one environment's section.
pub open spec fn perf_section_bytes(order: Seq<u64>, m: Map<u64, Seq<DurationSample>>) -> Seq<u8> {
    spec_u32_to_le_bytes(order.len() as u32) + perf_groups_bytes(order, m)
}

/// Whether `order` holds each element of `dom` once.
pub open spec fn enumerates(order: Seq<u64>, dom: Set<u64>) -> bool {
    order.no_duplicates() && order.to_set() == dom
}

/// Whether `b` is a compacted sample file of the two maps, in some order.
pub open spec fn is_perf_bin(
    b: Seq<u8>,
    local: Map<u64, Seq<DurationSample>>,
    remote: Map<u64, Seq<DurationSample>>,
) -> bool {
    exists|lo: Seq<u64>, ro: Seq<u64>|
        #![trigger perf_section_bytes(lo, local), perf_section_bytes(ro, remote)]
        enumerates(lo, local.dom()) && enumerates(ro, remote.dom()) && b == perf_mark()
            + perf_section_bytes(lo, local) + perf_section_bytes(ro, remote)
}

/// The bytes of one keyed flake record.
pub open spec fn flake_group_bytes(key: u64, r: FlakeRecord) -> Seq<u8> {
    let ts = match r.last_failure_timestamp_ms {
        Some(t) => t,
        None => u64::MAX,
    };
    spec_u64_to_le_bytes(key) + spec_u64_to_le_bytes(r.runs) + spec_u64_to_le_bytes(r.failures)
        + spec_u64_to_le_bytes(ts) + seq![class_code(r.last_failure_class)]
}

/// The bytes of the flake records of the keys in `order`.
pub open spec fn flake_groups_bytes(order: Seq<u64>, m: Map<u64, FlakeRecord>) -> Seq<u8>
    decreases order.len(),
{
    if order.len() == 0 {
        Seq::empty()
    } else {
        flake_groups_bytes(order.drop_last(), m) + flake_group_bytes(order.last(), m[order.last()])
    }
}

/// The bytes of one environment's section.
pub open spec fn flake_section_bytes(order: Seq<u64>, m: Map<u64, FlakeRecord>) -> Seq<u8> {
    spec_u32_to_le_bytes(order.len() as u32) + flake_groups_bytes(order, m)
}

/// Whether `b` is a compacted flake file of the two maps, in some order.
pub open spec fn is_flake_bin(
    b: Seq<u8>,
    local: Map<u64, FlakeRecord>,
    remote: Map<u64, FlakeRecord>,
) -> bool {
    exists|lo: Seq<u64>, ro: Seq<u64>|
        #![trigger flake_section_bytes(lo, local), flake_section_bytes(ro, remote)]
        enumerates(lo, local.dom()) && enumerates(ro, remote.dom()) && b == flake_mark()
            + flake_section_bytes(lo, local) + flake_section_bytes(ro, remote)
}

/// The entries of the keys in `order`.
pub open spec fn entries_of(order: Seq<u64>, m: Map<u64, IdentityView>) -> Seq<
    (u64, IdentityView),
> {
    Seq::new(order.len(), |i: int| (order[i], m[order[i]]))
}

/// The bytes of a compacted name file in the given order.
pub open spec fn names_bin_bytes(order: Seq<u64>, m: Map<u64, IdentityView>) -> Seq<u8> {
    names_mark() + spec_u32_to_le_bytes(order.len() as u32) + names_log_bytes(entries_of(order, m))
}

/// Whether `b` is a compacted name file of `m`, in some order.
pub open spec fn is_names_bin(b: Seq<u8>, m: Map<u64, IdentityView>) -> bool {
    exists|order: Seq<u64>|
        enumerates(order, m.dom()) && b == #[trigger] names_bin_bytes(order, m)
}

fn push_perf_section(out: &mut Vec<u8>, history: &EnvHistory, order: &Vec<u64>)
    requires
        enumerates(order@, history@.perf.dom()),
    ensures
        final(out)@ == old(out)@ + perf_section_bytes(order@, history@.perf),
{
    push_u32(out, #[verifier::truncate] (order.len() as u32));
    let ghost head = out@;
    let mut i: usize = 0;
    proof {
        assert(head + perf_groups_bytes(order@.take(0), history@.perf) =~= head);
    }
    while i < order.len()
        invariant
            i <= order@.len(),
            order@.to_set() == history@.perf.dom(),
            out@ == head + perf_groups_bytes(order@.take(i as int), history@.perf),
        decreases order@.len() - i,
    {
        let key: u64 = order[i];
        proof {
            assert(order@.to_set().contains(key));
        }
        let ghost before = out@;
        if let Some(samples) = history.samples(key) {
            push_u64(out, key);
            out.push(#[verifier::truncate] (samples.len() as u8));
            let ghost start = out@;
            let mut j: usize = 0;
            proof {
                assert(start + samples_bytes(samples@.take(0)) =~= start);
            }
            while j < samples.len()
                invariant
                    j <= samples@.len(),
                    out@ == start + samples_bytes(samples@.take(j as int)),
                decreases samples@.len() - j,
            {
                let s: DurationSample = samples[j];
                push_u64(out, s.timestamp_ms);
                push_u64(out, s.duration_ms);
                proof {
                    assert(samples@.take(j + 1).drop_last() =~= samples@.take(j as int));
                    assert(out@ =~= start + samples_bytes(samples@.take(j + 1)));
                }
                j = j + 1;
            }
            proof {
                assert(samples@.take(samples@.len() as int) =~= samples@);
                assert(out@ =~= before + perf_group_bytes(key, history@.perf[key]));
            }
        }
        proof {
            assert(order@.take(i + 1).drop_last() =~= order@.take(i as int));
            assert(out@ =~= head + perf_groups_bytes(order@.take(i + 1), history@.perf));
        }
        i = i + 1;
    }
    proof {
        assert(order@.take(order@.len() as int) =~= order@);
        assert(out@ =~= old(out)@ + perf_section_bytes(order@, history@.perf));
    }
}

/// The compacted sample file of the two histories.
pub(crate) fn perf_bin(local: &EnvHistory, remote: &EnvHistory) -> (r: Vec<u8>)
    ensures
        is_perf_bin(r@, local@.perf, remote@.perf),
{
    let mut out: Vec<u8> = Vec::new();
    out.push(0x50);
    out.push(0x52);
    out.push(0x46);
    out.push(0x31);
    proof {
        assert(out@ =~= perf_mark());
    }
    let lo: Vec<u64> = local.perf_keys();
    push_perf_section(&mut out, local, &lo);
    let ro: Vec<u64> = remote.perf_keys();
    push_perf_section(&mut out, remote, &ro);
    proof {
        assert(out@ == perf_mark() + perf_section_bytes(lo@, local@.perf) + perf_section_bytes(
            ro@,
            remote@.perf,
        ));
    }
    out
}

fn push_flake_section(out: &mut Vec<u8>, history: &EnvHistory, order: &Vec<u64>)
    requires
        enumerates(order@, history@.flake.dom()),
    ensures
        final(out)@ == old(out)@ + flake_section_bytes(order@, history@.flake),
{
    push_u32(out, #[verifier::truncate] (order.len() as u32));
    let ghost head = out@;
    let mut i: usize = 0;
    proof {
        assert(head + flake_groups_bytes(order@.take(0), history@.flake) =~= head);
    }
    while i < order.len()
        invariant
            i <= order@.len(),
            order@.to_set() == history@.flake.dom(),
            out@ == head + flake_groups_bytes(order@.take(i as int), history@.flake),
        decreases order@.len() - i,
    {
        let key: u64 = order[i];
        proof {
            assert(order@.to_set().contains(key));
        }
        let ghost before = out@;
        if let Some(record) = history.flakes(key) {
            push_u64(out, key);
            push_u64(out, record.runs);
            push_u64(out, record.failures);
            let ts: u64 = match record.last_failure_timestamp_ms {
                Some(t) => t,
                None => u64::MAX,
            };
            push_u64(out, ts);
            out.push(failure_class_to_u8(record.last_failure_class));
            proof {
                assert(out@ =~= before + flake_group_bytes(key, history@.flake[key]));
            }
        }
        proof {
            assert(order@.take(i + 1).drop_last() =~= order@.take(i as int));
            assert(out@ =~= head + flake_groups_bytes(order@.take(i + 1), history@.flake));
        }
        i = i + 1;
    }
    proof {
        assert(order@.take(order@.len() as int) =~= order@);
        assert(out@ =~= old(out)@ + flake_section_bytes(order@, history@.flake));
    }
}

/// The compacted flake file of the two histories.
pub(crate) fn flake_bin(local: &EnvHistory, remote: &EnvHistory) -> (r: Vec<u8>)
    ensures
        is_flake_bin(r@, local@.flake, remote@.flake),
{
    let mut out: Vec<u8> = Vec::new();
    out.push(0x46);
    out.push(0x4c);
    out.push(0x4b);
    out.push(0x31);
    proof {
        assert(out@ =~= flake_mark());
    }
    let lo: Vec<u64> = local.flake_keys();
    push_flake_section(&mut out, local, &lo);
    let ro: Vec<u64> = remote.flake_keys();
    push_flake_section(&mut out, remote, &ro);
    proof {
        assert(out@ == flake_mark() + flake_section_bytes(lo@, local@.flake) + flake_section_bytes(
            ro@,
            remote@.flake,
        ));
    }
    out
}

/// The compacted name file of `names`.
pub(crate) fn names_bin(names: &NameTable) -> (r: Vec<u8>)
    ensures
        is_names_bin(r@, names@),
{
    let mut out: Vec<u8> = Vec::new();
    out.push(0x4e);
    out.push(0x4d);
    out.push(0x53);
    out.push(0x31);
    proof {
        assert(out@ =~= names_mark());
    }
    let order: Vec<u64> = names.keys();
    push_u32(&mut out, #[verifier::truncate] (order.len() as u32));
    let ghost head = out@;
    let ghost all = entries_of(order@, names@);
    let mut i: usize = 0;
    proof {
        assert(head + names_log_bytes(all.take(0)) =~= head);
    }
    while i < order.len()
        invariant
            i <= order@.len(),
            order@.to_set() == names@.dom(),
            all == entries_of(order@, names@),
            out@ == head + names_log_bytes(all.take(i as int)),
        decreases order@.len() - i,
    {
        let key: u64 = order[i];
        proof {
            assert(order@.to_set().contains(key));
        }
        let ghost before = out@;
        if let Some(id) = names.get(key) {
            push_u64(&mut out, key);
            write_test_identity(&mut out, id);
            proof {
                assert(out@ =~= before + name_entry_bytes(all[i as int]));
            }
        }
        proof {
            assert(all.take(i + 1).drop_last() =~= all.take(i as int));
            assert(all.take(i + 1).last() == all[i as int]);
            assert(out@ =~= head + names_log_bytes(all.take(i + 1)));
        }
        i = i + 1;
    }
    proof {
        assert(all.take(order@.len() as int) =~= all);
        assert(out@ =~= names_bin_bytes(order@, names@));
    }
    out
}

} // verus!
