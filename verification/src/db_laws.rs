//! Laws of the timing history: what is flushed is what is loaded again, and
//! compaction changes nothing.

use vstd::bytes::*;
use vstd::prelude::*;
use vstd::utf8::*;

use crate::db_codec::{self, Histories, FLAKE_ENTRY, MAX_TEXT, PERF_ENTRY};
use crate::duration_db::{
    self, DbView, DurationSample, EnvView, Environment, FilesView, FlakeEntry, FlakeRecord, PerfEntry,
    MAX_SAMPLES,
};
use crate::order;
use crate::result::{FailureClass, IdentityView};

verus! {

// ---------------------------------------------------------------------------
// Replaying the logs.

impl Histories {
    /// The histories after one more sample.
    pub open spec fn with_perf(self, e: PerfEntry) -> Histories {
        let sample = DurationSample { timestamp_ms: e.timestamp_ms, duration_ms: e.duration_ms };
        match e.env {
            Environment::Local => Histories {
                local: duration_db::with_sample(self.local, e.key, sample),
                ..self
            },
            Environment::Remote => Histories {
                remote: duration_db::with_sample(self.remote, e.key, sample),
                ..self
            },
        }
    }

    /// The histories after one more counted run.
    pub open spec fn with_flake(self, e: FlakeEntry) -> Histories {
        match e.env {
            Environment::Local => Histories {
                local: duration_db::with_counted(self.local, e.key, e.failed, e.class, e.timestamp_ms),
                ..self
            },
            Environment::Remote => Histories {
                remote: duration_db::with_counted(self.remote, e.key, e.failed, e.class, e.timestamp_ms),
                ..self
            },
        }
    }
}

/// The histories after the samples of `es`, in order.
pub open spec fn perf_applied(es: Seq<PerfEntry>, h: Histories) -> Histories
    decreases es.len(),
{
    if es.len() == 0 {
        h
    } else {
        perf_applied(es.drop_last(), h).with_perf(es.last())
    }
}

/// The histories after the runs of `es`, in order.
pub open spec fn flake_applied(es: Seq<FlakeEntry>, h: Histories) -> Histories
    decreases es.len(),
{
    if es.len() == 0 {
        h
    } else {
        flake_applied(es.drop_last(), h).with_flake(es.last())
    }
}

/// The names after those of `es`, in order.
pub open spec fn names_applied(es: Seq<(u64, IdentityView)>, m: Map<u64, IdentityView>) -> Map<
    u64,
    IdentityView,
>
    decreases es.len(),
{
    if es.len() == 0 {
        m
    } else {
        names_applied(es.drop_last(), m).insert(es.last().0, es.last().1)
    }
}

proof fn lemma_perf_entry(e: PerfEntry, h: Histories)
    ensures
        db_codec::perf_entry_bytes(e).len() == PERF_ENTRY,
        h.with_perf_entry(db_codec::perf_entry_bytes(e)) == h.with_perf(e),
{
    let b = db_codec::perf_entry_bytes(e);
    let k = spec_u64_to_le_bytes(e.key);
    let t = spec_u64_to_le_bytes(e.timestamp_ms);
    let d = spec_u64_to_le_bytes(e.duration_ms);
    db_codec::lemma_u64_reads_back(e.key, t + d);
    db_codec::lemma_u64_reads_back(e.timestamp_ms, d);
    db_codec::lemma_u64_reads_back(e.duration_ms, Seq::empty());
    assert(d + Seq::<u8>::empty() =~= d);
    assert(b.skip(1) =~= k + (t + d));
    assert(b.skip(9) =~= t + d);
    assert(b.skip(17) =~= d);
    assert(b[0] == db_codec::env_code(e.env));
}

proof fn lemma_perf_replay_concat(a: Seq<u8>, b: Seq<u8>, h: Histories)
    requires
        a.len() % (PERF_ENTRY as nat) == 0,
    ensures
        db_codec::perf_replayed(a + b, h) == db_codec::perf_replayed(b, db_codec::perf_replayed(a, h)),
    decreases a.len(),
{
    if a.len() < PERF_ENTRY {
        assert(a + b =~= b);
    } else {
        let n = PERF_ENTRY as int;
        assert((a + b).skip(n) =~= a.skip(n) + b);
        assert((a + b).take(n) =~= a.take(n));
        lemma_perf_replay_concat(a.skip(n), b, h.with_perf_entry(a.take(n)));
    }
}

proof fn lemma_perf_log(es: Seq<PerfEntry>, h: Histories)
    ensures
        db_codec::perf_log_bytes(es).len() == PERF_ENTRY * es.len(),
        db_codec::perf_replayed(db_codec::perf_log_bytes(es), h) == perf_applied(es, h),
    decreases es.len(),
{
    if es.len() > 0 {
        let front = db_codec::perf_log_bytes(es.drop_last());
        let e = db_codec::perf_entry_bytes(es.last());
        lemma_perf_log(es.drop_last(), h);
        let h1 = db_codec::perf_replayed(front, h);
        lemma_perf_entry(es.last(), h1);
        lemma_perf_replay_concat(front, e, h);
        assert(e.take(PERF_ENTRY as int) =~= e);
        assert(e.skip(PERF_ENTRY as int).len() == 0);
        assert(db_codec::perf_replayed(e.skip(PERF_ENTRY as int), h1.with_perf_entry(e))
            == h1.with_perf_entry(e));
    }
}

proof fn lemma_flake_entry(e: FlakeEntry, h: Histories)
    ensures
        db_codec::flake_entry_bytes(e).len() == FLAKE_ENTRY,
        h.with_flake_entry(db_codec::flake_entry_bytes(e)) == h.with_flake(e),
{
    let b = db_codec::flake_entry_bytes(e);
    let k = spec_u64_to_le_bytes(e.key);
    let t = spec_u64_to_le_bytes(e.timestamp_ms);
    let failed: u8 = if e.failed {
        1
    } else {
        0
    };
    let mid = seq![failed, db_codec::class_code(e.class)];
    db_codec::lemma_u64_reads_back(e.key, mid + t);
    db_codec::lemma_u64_reads_back(e.timestamp_ms, Seq::empty());
    assert(t + Seq::<u8>::empty() =~= t);
    assert(b.skip(1) =~= k + (mid + t));
    assert(b.skip(11) =~= t);
    assert(b[0] == db_codec::env_code(e.env));
    assert(b[9] == failed);
    assert(b[10] == db_codec::class_code(e.class));
    assert(db_codec::class_of_code(db_codec::class_code(e.class)) == e.class);
}

proof fn lemma_flake_replay_concat(a: Seq<u8>, b: Seq<u8>, h: Histories)
    requires
        a.len() % (FLAKE_ENTRY as nat) == 0,
    ensures
        db_codec::flake_replayed(a + b, h) == db_codec::flake_replayed(b, db_codec::flake_replayed(a, h)),
    decreases a.len(),
{
    if a.len() < FLAKE_ENTRY {
        assert(a + b =~= b);
    } else {
        let n = FLAKE_ENTRY as int;
        assert((a + b).skip(n) =~= a.skip(n) + b);
        assert((a + b).take(n) =~= a.take(n));
        lemma_flake_replay_concat(a.skip(n), b, h.with_flake_entry(a.take(n)));
    }
}

proof fn lemma_flake_log(es: Seq<FlakeEntry>, h: Histories)
    ensures
        db_codec::flake_log_bytes(es).len() == FLAKE_ENTRY * es.len(),
        db_codec::flake_replayed(db_codec::flake_log_bytes(es), h) == flake_applied(es, h),
    decreases es.len(),
{
    if es.len() > 0 {
        let front = db_codec::flake_log_bytes(es.drop_last());
        let e = db_codec::flake_entry_bytes(es.last());
        lemma_flake_log(es.drop_last(), h);
        let h1 = db_codec::flake_replayed(front, h);
        lemma_flake_entry(es.last(), h1);
        lemma_flake_replay_concat(front, e, h);
        assert(e.take(FLAKE_ENTRY as int) =~= e);
        assert(e.skip(FLAKE_ENTRY as int).len() == 0);
        assert(db_codec::flake_replayed(e.skip(FLAKE_ENTRY as int), h1.with_flake_entry(e))
            == h1.with_flake_entry(e));
    }
}

/// Whether the texts of an identity are short enough to be read back.
pub open spec fn fits(id: IdentityView) -> bool {
    &&& encode_utf8(id.target).len() <= MAX_TEXT
    &&& encode_utf8(id.name).len() <= MAX_TEXT
    &&& encode_utf8(id.variant).len() <= MAX_TEXT
}

/// Whether every named identity is short enough to be read back.
pub open spec fn all_fit(es: Seq<(u64, IdentityView)>) -> bool {
    forall|i: int| 0 <= i < es.len() ==> fits((#[trigger] es[i]).1)
}

proof fn lemma_text_reads_back(text: Seq<char>, tail: Seq<u8>)
    requires
        encode_utf8(text).len() <= MAX_TEXT,
    ensures
        db_codec::text_read(db_codec::text_bytes(text) + tail) == (Some(text), tail),
{
    let body = encode_utf8(text);
    let n = body.len() as u32;
    db_codec::lemma_u32_reads_back(n, body + tail);
    assert(db_codec::text_bytes(text) + tail =~= spec_u32_to_le_bytes(n) + (body + tail));
    assert((body + tail).take(n as int) =~= body);
    assert((body + tail).skip(n as int) =~= tail);
    vstd::utf8::encode_utf8_valid_utf8(text);
    vstd::utf8::encode_utf8_decode_utf8(text);
}

proof fn lemma_identity_reads_back(id: IdentityView, tail: Seq<u8>)
    requires
        fits(id),
    ensures
        db_codec::identity_read(db_codec::identity_bytes(id) + tail) == (Some(id), tail),
{
    let n = db_codec::text_bytes(id.name);
    let v = db_codec::text_bytes(id.variant);
    lemma_text_reads_back(id.target, n + (v + tail));
    lemma_text_reads_back(id.name, v + tail);
    lemma_text_reads_back(id.variant, tail);
    assert(db_codec::identity_bytes(id) + tail =~= db_codec::text_bytes(id.target) + (n + (v + tail)));
}

proof fn lemma_name_entry(e: (u64, IdentityView), tail: Seq<u8>)
    requires
        fits(e.1),
    ensures
        (db_codec::name_entry_bytes(e) + tail).len() >= 8,
        db_codec::head_u64(db_codec::name_entry_bytes(e) + tail) == e.0,
        db_codec::identity_read((db_codec::name_entry_bytes(e) + tail).skip(8)) == (Some(e.1), tail),
{
    let rest = db_codec::identity_bytes(e.1) + tail;
    db_codec::lemma_u64_reads_back(e.0, rest);
    assert(db_codec::name_entry_bytes(e) + tail =~= spec_u64_to_le_bytes(e.0) + rest);
    lemma_identity_reads_back(e.1, tail);
}

proof fn lemma_names_log(es: Seq<(u64, IdentityView)>, tail: Seq<u8>, m: Map<u64, IdentityView>)
    requires
        all_fit(es),
    ensures
        db_codec::names_replayed(db_codec::names_log_bytes(es) + tail, m) == db_codec::names_replayed(
            tail,
            names_applied(es, m),
        ),
    decreases es.len(),
{
    if es.len() == 0 {
        assert(db_codec::names_log_bytes(es) + tail =~= tail);
    } else {
        let front = es.drop_last();
        let e = es.last();
        assert(all_fit(front)) by {
            assert forall|i: int| 0 <= i < front.len() implies fits((#[trigger] front[i]).1) by {
                assert(front[i] == es[i]);
            }
        }
        assert(fits(es[es.len() - 1].1));
        lemma_names_log(front, db_codec::name_entry_bytes(e) + tail, m);
        assert(db_codec::names_log_bytes(es) + tail =~= db_codec::names_log_bytes(front) + (db_codec::name_entry_bytes(e) + tail));
        lemma_name_entry(e, tail);
    }
}

// ---------------------------------------------------------------------------
// Flush and load.

/// Whether `v` is `base` after the runs that wait in `v` to be persisted.
pub open spec fn grew_from(base: DbView, v: DbView) -> bool {
    &&& (Histories { local: v.local, remote: v.remote }) == flake_applied(
        v.new_flake,
        perf_applied(v.new_perf, Histories { local: base.local, remote: base.remote }),
    )
    &&& v.names == names_applied(v.new_names, base.names)
}

/// A run's sample and its count do not interfere.
proof fn lemma_sample_and_count_commute(e: PerfEntry, fs: Seq<FlakeEntry>, h: Histories)
    ensures
        flake_applied(fs, h.with_perf(e)) == flake_applied(fs, h).with_perf(e),
    decreases fs.len(),
{
    if fs.len() > 0 {
        lemma_sample_and_count_commute(e, fs.drop_last(), h);
    }
}

/// What is recorded is read back: a run that passed is among the samples of its
/// test, which has a measured duration from then on; every run is counted; and
/// nothing changes for any other test.
pub proof fn law_recorded_runs_are_read_back(
    db: DbView,
    env: Environment,
    key: u64,
    id: IdentityView,
    duration_ms: u64,
    failed: bool,
    class: Option<FailureClass>,
    timestamp_ms: u64,
    other: u64,
)
    requires
        other != key,
    ensures
        ({
            let after = db.with_recorded(env, key, id, duration_ms, failed, class, timestamp_ms);
            let before = db.samples(Some(env), key);
            &&& after.samples(Some(env), key) == if failed {
                before
            } else {
                duration_db::newest(before.push(DurationSample { timestamp_ms, duration_ms }))
            }
            &&& !failed ==> duration_db::estimate_from(after.samples(Some(env), key)) is Measured
            &&& !failed ==> duration_db::estimate_from(after.samples(None, key)) is Measured
            &&& after.flakes(Some(env), key) is Some
            &&& (after.flakes(Some(env), key)->0).runs == duration_db::capped_sum(
                duration_db::flakes_at(db.env(env).flake, key).runs,
                1,
            )
            &&& (after.flakes(Some(env), key)->0).failures == if failed {
                duration_db::capped_sum(duration_db::flakes_at(db.env(env).flake, key).failures, 1)
            } else {
                duration_db::flakes_at(db.env(env).flake, key).failures
            }
            &&& after.names.contains_key(key)
            &&& forall|e: Option<Environment>| #[trigger]
                after.samples(e, other) == db.samples(e, other)
            &&& forall|e: Option<Environment>| #[trigger]
                after.flakes(e, other) == db.flakes(e, other)
        }),
{
    let sample = DurationSample { timestamp_ms, duration_ms };
    let before = db.samples(Some(env), key);
    order::lemma_ranked(before.push(sample));
    let after = db.with_recorded(env, key, id, duration_ms, failed, class, timestamp_ms);
    if !failed {
        assert(after.samples(Some(env), key).len() > 0);
        assert(after.samples(None, key).len() > 0);
    }
}

/// A freshly loaded store has grown from itself, and recording a run keeps a
/// store grown from where it started.
pub proof fn law_recording_keeps_the_store_in_step(
    base: DbView,
    v: DbView,
    env: Environment,
    key: u64,
    id: IdentityView,
    duration_ms: u64,
    failed: bool,
    class: Option<FailureClass>,
    timestamp_ms: u64,
)
    requires
        grew_from(base, v),
    ensures
        grew_from(
            base,
            v.with_recorded(env, key, id, duration_ms, failed, class, timestamp_ms),
        ),
        base.new_perf.len() == 0 && base.new_flake.len() == 0 && base.new_names.len() == 0
            ==> grew_from(base, base),
{
    let h0 = Histories { local: base.local, remote: base.remote };
    let w = v.with_recorded(env, key, id, duration_ms, failed, class, timestamp_ms);
    let pe = PerfEntry { env, key, timestamp_ms, duration_ms };
    let fe = FlakeEntry { env, key, failed, class, timestamp_ms };
    assert(v.new_flake.push(fe).drop_last() =~= v.new_flake);
    assert(v.new_perf.push(pe).drop_last() =~= v.new_perf);
    assert(v.new_names.push((key, id)).drop_last() =~= v.new_names);
    if !failed {
        lemma_sample_and_count_commute(pe, v.new_flake, perf_applied(v.new_perf, h0));
    }
    assert(w.new_flake.drop_last() =~= v.new_flake);
}

/// Whether every log holds whole entries only.
pub open spec fn logs_whole(f: FilesView) -> bool {
    &&& f.perf_log.len() % (PERF_ENTRY as nat) == 0
    &&& f.flake_log.len() % (FLAKE_ENTRY as nat) == 0
    &&& exists|es: Seq<(u64, IdentityView)>| all_fit(es) && f.names_log == #[trigger] db_codec::names_log_bytes(
        es,
    )
}

/// The files after a flush of `v`: what waits is appended to the logs.
pub open spec fn flushed(f: FilesView, v: DbView) -> FilesView {
    FilesView {
        perf_log: f.perf_log + db_codec::perf_log_bytes(v.new_perf),
        flake_log: f.flake_log + db_codec::flake_log_bytes(v.new_flake),
        names_log: f.names_log + db_codec::names_log_bytes(v.new_names),
        ..f
    }
}

/// Replaying samples touches no flake record, and the other way round.
proof fn lemma_perf_replay_keeps_flakes(b: Seq<u8>, h: Histories)
    ensures
        db_codec::perf_replayed(b, h).local.flake == h.local.flake,
        db_codec::perf_replayed(b, h).remote.flake == h.remote.flake,
    decreases b.len(),
{
    if b.len() >= PERF_ENTRY {
        lemma_perf_replay_keeps_flakes(
            b.skip(PERF_ENTRY as int),
            h.with_perf_entry(b.take(PERF_ENTRY as int)),
        );
    }
}

/// Applying samples commutes with setting the flake records.
proof fn lemma_perf_applied_ignores_flakes(
    es: Seq<PerfEntry>,
    h: Histories,
    lf: Map<u64, FlakeRecord>,
    rf: Map<u64, FlakeRecord>,
)
    ensures
        perf_applied(
            es,
            Histories {
                local: EnvView { flake: lf, ..h.local },
                remote: EnvView { flake: rf, ..h.remote },
            },
        ) == (Histories {
            local: EnvView { flake: lf, ..perf_applied(es, h).local },
            remote: EnvView { flake: rf, ..perf_applied(es, h).remote },
        }),
        perf_applied(es, h).local.flake == h.local.flake,
        perf_applied(es, h).remote.flake == h.remote.flake,
    decreases es.len(),
{
    if es.len() > 0 {
        lemma_perf_applied_ignores_flakes(es.drop_last(), h, lf, rf);
    }
}

/// Applying samples after replaying runs is replaying the runs after them.
proof fn lemma_flake_replay_commutes(b: Seq<u8>, es: Seq<PerfEntry>, h: Histories)
    ensures
        db_codec::flake_replayed(b, perf_applied(es, h)) == perf_applied(es, db_codec::flake_replayed(b, h)),
    decreases b.len(),
{
    if b.len() >= FLAKE_ENTRY {
        let entry = b.take(FLAKE_ENTRY as int);
        lemma_flake_entry_commutes(entry, es, h);
        lemma_flake_replay_commutes(b.skip(FLAKE_ENTRY as int), es, h.with_flake_entry(entry));
    }
}

proof fn lemma_flake_entry_commutes(entry: Seq<u8>, es: Seq<PerfEntry>, h: Histories)
    ensures
        perf_applied(es, h).with_flake_entry(entry) == perf_applied(es, h.with_flake_entry(entry)),
    decreases es.len(),
{
    if es.len() > 0 {
        lemma_flake_entry_commutes(entry, es.drop_last(), h);
    }
}

/// What is flushed is what is loaded again: when a store has grown from the one
/// its files held, the files after the flush hold the store's history and names.
/// The logs must hold whole entries, and the texts of new names must be short
/// enough to be read back.
pub proof fn law_flush_then_load(f: FilesView, v: DbView)
    requires
        grew_from(duration_db::loaded(f), v),
        logs_whole(f),
        all_fit(v.new_names),
    ensures
        duration_db::loaded(flushed(f, v)) == (DbView {
            new_perf: Seq::empty(),
            new_flake: Seq::empty(),
            new_names: Seq::empty(),
            ..v
        }),
        logs_whole(flushed(f, v)),
{
    let g = flushed(f, v);
    // The names.
    let es = choose|es: Seq<(u64, IdentityView)>|
        all_fit(es) && f.names_log == #[trigger] db_codec::names_log_bytes(es);
    let m0 = db_codec::names_bin_read(f.names_bin, Map::empty());
    let nb = db_codec::names_log_bytes(v.new_names);
    lemma_names_log(es, nb, m0);
    lemma_names_log(es, Seq::empty(), m0);
    assert(db_codec::names_log_bytes(es) + Seq::<u8>::empty() =~= f.names_log);
    lemma_names_log(v.new_names, Seq::empty(), names_applied(es, m0));
    assert(nb + Seq::<u8>::empty() =~= nb);
    assert(duration_db::loaded(g).names == v.names);
    // The samples.
    let none = Map::<u64, Seq<DurationSample>>::empty();
    let perf = db_codec::perf_bin_read(f.perf_bin, none, none);
    let h0 = Histories {
        local: EnvView { perf: perf.0, flake: Map::empty() },
        remote: EnvView { perf: perf.1, flake: Map::empty() },
    };
    lemma_perf_replay_concat(f.perf_log, db_codec::perf_log_bytes(v.new_perf), h0);
    let s = db_codec::perf_replayed(f.perf_log, h0);
    lemma_perf_log(v.new_perf, s);
    let s2 = perf_applied(v.new_perf, s);
    assert(db_codec::perf_replayed(g.perf_log, h0) == s2);
    lemma_perf_replay_keeps_flakes(f.perf_log, h0);
    // The flake records.
    let fl = db_codec::flake_bin_read(f.flake_bin, s.local.flake, s.remote.flake);
    let t = Histories {
        local: EnvView { flake: fl.0, ..s.local },
        remote: EnvView { flake: fl.1, ..s.remote },
    };
    lemma_perf_applied_ignores_flakes(v.new_perf, s, fl.0, fl.1);
    let t2 = Histories {
        local: EnvView { flake: fl.0, ..s2.local },
        remote: EnvView { flake: fl.1, ..s2.remote },
    };
    assert(t2 == perf_applied(v.new_perf, t));
    lemma_flake_replay_concat(f.flake_log, db_codec::flake_log_bytes(v.new_flake), t2);
    lemma_flake_log(v.new_flake, db_codec::flake_replayed(f.flake_log, t2));
    lemma_flake_replay_commutes(f.flake_log, v.new_perf, t);
    let base = db_codec::flake_replayed(f.flake_log, t);
    assert(duration_db::histories_loaded(f) == base);
    assert(duration_db::histories_loaded(g) == flake_applied(v.new_flake, perf_applied(v.new_perf, base)));
    // The logs stay whole.
    lemma_perf_log(v.new_perf, h0);
    lemma_flake_log(v.new_flake, h0);
    assert(g.perf_log.len() % (PERF_ENTRY as nat) == 0) by {
        assert(f.perf_log.len() == PERF_ENTRY * (f.perf_log.len() / (PERF_ENTRY as nat)));
    }
    assert(g.flake_log.len() % (FLAKE_ENTRY as nat) == 0) by {
        assert(f.flake_log.len() == FLAKE_ENTRY * (f.flake_log.len() / (FLAKE_ENTRY as nat)));
    }
    lemma_names_log_concat(es, v.new_names);
    let both = es + v.new_names;
    assert(all_fit(both)) by {
        assert forall|i: int| 0 <= i < both.len() implies fits((#[trigger] both[i]).1) by {
            if i < es.len() {
                assert(both[i] == es[i]);
            } else {
                assert(both[i] == v.new_names[i - es.len()]);
            }
        }
    }
    assert(g.names_log == db_codec::names_log_bytes(both));
}

proof fn lemma_names_log_concat(a: Seq<(u64, IdentityView)>, b: Seq<(u64, IdentityView)>)
    ensures
        db_codec::names_log_bytes(a + b) == db_codec::names_log_bytes(a) + db_codec::names_log_bytes(b),
    decreases b.len(),
{
    if b.len() == 0 {
        assert(a + b =~= a);
        assert(db_codec::names_log_bytes(a) + db_codec::names_log_bytes(b) =~= db_codec::names_log_bytes(a));
    } else {
        lemma_names_log_concat(a, b.drop_last());
        assert((a + b).drop_last() =~= a + b.drop_last());
        assert((a + b).last() == b.last());
        assert(db_codec::names_log_bytes(a + b) =~= db_codec::names_log_bytes(a) + db_codec::names_log_bytes(b));
    }
}

// ---------------------------------------------------------------------------
// Compaction.

/// `acc` with the entries of `m` under the keys in `order`, in order.
pub open spec fn inserted<V>(acc: Map<u64, V>, order: Seq<u64>, m: Map<u64, V>) -> Map<u64, V>
    decreases order.len(),
{
    if order.len() == 0 {
        acc
    } else {
        inserted(acc, order.drop_last(), m).insert(order.last(), m[order.last()])
    }
}

proof fn lemma_inserted_at<V>(order: Seq<u64>, m: Map<u64, V>, k: u64)
    ensures
        inserted(Map::<u64, V>::empty(), order, m).contains_key(k) <==> order.contains(k),
        order.contains(k) ==> inserted(Map::<u64, V>::empty(), order, m)[k] == m[k],
    decreases order.len(),
{
    if order.len() > 0 {
        let front = order.drop_last();
        lemma_inserted_at(front, m, k);
        if front.contains(k) {
            let i = choose|i: int| 0 <= i < front.len() && front[i] == k;
            assert(order[i] == k);
        }
        if order.contains(k) && k != order.last() {
            let i = choose|i: int| 0 <= i < order.len() && order[i] == k;
            assert(front[i] == k);
        }
        if k == order.last() {
            assert(order[order.len() - 1] == k);
        }
    }
}

proof fn lemma_inserted_all<V>(order: Seq<u64>, m: Map<u64, V>)
    requires
        db_codec::enumerates(order, m.dom()),
    ensures
        inserted(Map::<u64, V>::empty(), order, m) == m,
{
    let r = inserted(Map::<u64, V>::empty(), order, m);
    assert forall|k: u64|
        (#[trigger] r.contains_key(k) <==> m.contains_key(k)) && (r.contains_key(k) ==> r[k]
            == m[k]) by {
        lemma_inserted_at(order, m, k);
        assert(order.to_set().contains(k) <==> order.contains(k));
    }
    assert(r =~= m);
}

proof fn lemma_samples_read_in_two(b: Seq<u8>, n: nat, acc: Seq<DurationSample>)
    ensures
        db_codec::samples_read(b, n + 1, acc) == db_codec::samples_read(
            db_codec::samples_read(b, n, acc).1,
            1,
            db_codec::samples_read(b, n, acc).0,
        ),
    decreases n,
{
    if n > 0 && b.len() >= 16 {
        let sample = DurationSample {
            timestamp_ms: db_codec::head_u64(b),
            duration_ms: db_codec::head_u64(b.skip(8)),
        };
        lemma_samples_read_in_two(b.skip(16), (n - 1) as nat, acc.push(sample));
    }
}

proof fn lemma_samples_read_back(s: Seq<DurationSample>, tail: Seq<u8>)
    ensures
        db_codec::samples_read(db_codec::samples_bytes(s) + tail, s.len(), Seq::empty()) == (
            s,
            tail,
        ),
    decreases s.len(),
{
    let b = db_codec::samples_bytes(s) + tail;
    if s.len() == 0 {
        assert(b =~= tail);
        assert(s =~= Seq::empty());
    } else {
        let front = s.drop_last();
        let x = s.last();
        let t = spec_u64_to_le_bytes(x.timestamp_ms);
        let d = spec_u64_to_le_bytes(x.duration_ms);
        let rest = (t + d) + tail;
        lemma_samples_read_back(front, rest);
        assert(b =~= db_codec::samples_bytes(front) + rest);
        lemma_samples_read_in_two(b, front.len(), Seq::empty());
        db_codec::lemma_u64_reads_back(x.timestamp_ms, d + tail);
        db_codec::lemma_u64_reads_back(x.duration_ms, tail);
        assert(rest =~= t + (d + tail));
        assert(rest.skip(16) =~= tail);
        assert(front.push(x) =~= s);
        assert(db_codec::samples_read(rest.skip(16), 0, front.push(x)) == (s, tail));
    }
}

proof fn lemma_perf_read_in_two(b: Seq<u8>, n: nat, m: Map<u64, Seq<DurationSample>>)
    ensures
        db_codec::perf_read(b, n + 1, m) == db_codec::perf_read(
            db_codec::perf_read(b, n, m).1,
            1,
            db_codec::perf_read(b, n, m).0,
        ),
    decreases n,
{
    if n > 0 && b.len() >= 9 {
        let group = db_codec::samples_read(b.skip(9), b[8] as nat, Seq::empty());
        lemma_perf_read_in_two(
            group.1,
            (n - 1) as nat,
            m.insert(db_codec::head_u64(b), group.0),
        );
    }
}

/// Whether every group of samples is small enough for its length byte.
pub open spec fn groups_fit(m: Map<u64, Seq<DurationSample>>) -> bool {
    forall|k: u64| #[trigger] m.contains_key(k) ==> m[k].len() <= 255
}

proof fn lemma_perf_groups_read_back(
    order: Seq<u64>,
    m: Map<u64, Seq<DurationSample>>,
    tail: Seq<u8>,
)
    requires
        groups_fit(m),
        forall|i: int| 0 <= i < order.len() ==> m.contains_key(#[trigger] order[i]),
    ensures
        db_codec::perf_read(
            db_codec::perf_groups_bytes(order, m) + tail,
            order.len(),
            Map::empty(),
        ) == (inserted(Map::empty(), order, m), tail),
    decreases order.len(),
{
    let b = db_codec::perf_groups_bytes(order, m) + tail;
    if order.len() == 0 {
        assert(b =~= tail);
    } else {
        let front = order.drop_last();
        let key = order.last();
        let group = db_codec::perf_group_bytes(key, m[key]);
        let rest = group + tail;
        assert(m.contains_key(order[order.len() - 1]));
        assert forall|i: int| 0 <= i < front.len() implies m.contains_key(#[trigger] front[i]) by {
            assert(front[i] == order[i]);
        }
        lemma_perf_groups_read_back(front, m, rest);
        assert(b =~= db_codec::perf_groups_bytes(front, m) + rest);
        lemma_perf_read_in_two(b, front.len(), Map::empty());
        let samples = db_codec::samples_bytes(m[key]);
        let count = seq![m[key].len() as u8];
        db_codec::lemma_u64_reads_back(key, count + (samples + tail));
        assert(rest =~= spec_u64_to_le_bytes(key) + (count + (samples + tail)));
        assert(rest[8] == m[key].len());
        assert(rest.skip(9) =~= samples + tail);
        lemma_samples_read_back(m[key], tail);
        let acc = inserted(Map::empty(), front, m);
        assert(db_codec::perf_read(tail, 0, acc.insert(key, m[key])) == (
            acc.insert(key, m[key]),
            tail,
        ));
    }
}

proof fn lemma_perf_section_reads_back(
    order: Seq<u64>,
    m: Map<u64, Seq<DurationSample>>,
    tail: Seq<u8>,
)
    requires
        groups_fit(m),
        db_codec::enumerates(order, m.dom()),
        order.len() <= u32::MAX,
    ensures
        db_codec::perf_section_read(db_codec::perf_section_bytes(order, m) + tail, Map::empty())
            == (m, tail),
{
    let groups = db_codec::perf_groups_bytes(order, m);
    assert forall|i: int| 0 <= i < order.len() implies m.contains_key(#[trigger] order[i]) by {
        assert(order.to_set().contains(order[i]));
    }
    db_codec::lemma_u32_reads_back(order.len() as u32, groups + tail);
    assert(db_codec::perf_section_bytes(order, m) + tail =~= spec_u32_to_le_bytes(
        order.len() as u32,
    ) + (groups + tail));
    lemma_perf_groups_read_back(order, m, tail);
    lemma_inserted_all(order, m);
}

/// A compacted sample file reads back as the samples it was made of.
pub proof fn law_perf_file_reads_back(
    b: Seq<u8>,
    local: Map<u64, Seq<DurationSample>>,
    remote: Map<u64, Seq<DurationSample>>,
)
    requires
        db_codec::is_perf_bin(b, local, remote),
        groups_fit(local),
        groups_fit(remote),
        local.dom().len() <= u32::MAX,
        remote.dom().len() <= u32::MAX,
    ensures
        db_codec::perf_bin_read(b, Map::empty(), Map::empty()) == (local, remote),
{
    let (lo, ro) = choose|lo: Seq<u64>, ro: Seq<u64>|
        #![trigger db_codec::perf_section_bytes(lo, local), db_codec::perf_section_bytes(ro, remote)]
        db_codec::enumerates(lo, local.dom()) && db_codec::enumerates(ro, remote.dom()) && b
            == db_codec::perf_mark() + db_codec::perf_section_bytes(lo, local)
            + db_codec::perf_section_bytes(ro, remote);
    lo.unique_seq_to_set();
    ro.unique_seq_to_set();
    let ls = db_codec::perf_section_bytes(lo, local);
    let rs = db_codec::perf_section_bytes(ro, remote);
    assert(b.take(4) =~= db_codec::perf_mark());
    assert(b.skip(4) =~= ls + rs);
    lemma_perf_section_reads_back(lo, local, rs);
    lemma_perf_section_reads_back(ro, remote, Seq::empty());
    assert(rs + Seq::<u8>::empty() =~= rs);
}

proof fn lemma_flake_read_in_two(b: Seq<u8>, n: nat, m: Map<u64, FlakeRecord>)
    ensures
        db_codec::flake_read(b, n + 1, m) == db_codec::flake_read(
            db_codec::flake_read(b, n, m).1,
            1,
            db_codec::flake_read(b, n, m).0,
        ),
    decreases n,
{
    if n > 0 && b.len() >= 33 {
        lemma_flake_read_in_two(
            b.skip(33),
            (n - 1) as nat,
            m.insert(db_codec::head_u64(b), db_codec::flake_group(b)),
        );
    }
}

/// Whether no record has its last failure at the timestamp that stands for none.
pub open spec fn timestamps_fit(m: Map<u64, FlakeRecord>) -> bool {
    forall|k: u64| #[trigger]
        m.contains_key(k) ==> m[k].last_failure_timestamp_ms != Some(u64::MAX)
}

proof fn lemma_flake_group_reads_back(key: u64, r: FlakeRecord, tail: Seq<u8>)
    requires
        r.last_failure_timestamp_ms != Some(u64::MAX),
    ensures
        ({
            let b = db_codec::flake_group_bytes(key, r) + tail;
            &&& b.len() >= 33
            &&& db_codec::head_u64(b) == key
            &&& db_codec::flake_group(b) == r
            &&& b.skip(33) == tail
        }),
{
    let b = db_codec::flake_group_bytes(key, r) + tail;
    let ts = match r.last_failure_timestamp_ms {
        Some(t) => t,
        None => u64::MAX,
    };
    let c = seq![db_codec::class_code(r.last_failure_class)];
    let x3 = spec_u64_to_le_bytes(ts) + (c + tail);
    let x2 = spec_u64_to_le_bytes(r.failures) + x3;
    let x1 = spec_u64_to_le_bytes(r.runs) + x2;
    db_codec::lemma_u64_reads_back(key, x1);
    db_codec::lemma_u64_reads_back(r.runs, x2);
    db_codec::lemma_u64_reads_back(r.failures, x3);
    db_codec::lemma_u64_reads_back(ts, c + tail);
    assert(b =~= spec_u64_to_le_bytes(key) + x1);
    assert(b.skip(8) =~= x1);
    assert(b.skip(16) =~= x2);
    assert(b.skip(24) =~= x3);
    assert(b[32] == c[0]);
    assert(b.skip(33) =~= tail);
    assert(db_codec::class_of_code(db_codec::class_code(r.last_failure_class))
        == r.last_failure_class);
}

proof fn lemma_flake_groups_read_back(order: Seq<u64>, m: Map<u64, FlakeRecord>, tail: Seq<u8>)
    requires
        timestamps_fit(m),
        forall|i: int| 0 <= i < order.len() ==> m.contains_key(#[trigger] order[i]),
    ensures
        db_codec::flake_read(
            db_codec::flake_groups_bytes(order, m) + tail,
            order.len(),
            Map::empty(),
        ) == (inserted(Map::empty(), order, m), tail),
    decreases order.len(),
{
    let b = db_codec::flake_groups_bytes(order, m) + tail;
    if order.len() == 0 {
        assert(b =~= tail);
    } else {
        let front = order.drop_last();
        let key = order.last();
        let rest = db_codec::flake_group_bytes(key, m[key]) + tail;
        assert(m.contains_key(order[order.len() - 1]));
        assert forall|i: int| 0 <= i < front.len() implies m.contains_key(#[trigger] front[i]) by {
            assert(front[i] == order[i]);
        }
        lemma_flake_groups_read_back(front, m, rest);
        assert(b =~= db_codec::flake_groups_bytes(front, m) + rest);
        lemma_flake_read_in_two(b, front.len(), Map::empty());
        lemma_flake_group_reads_back(key, m[key], tail);
        let acc = inserted(Map::empty(), front, m);
        assert(db_codec::flake_read(tail, 0, acc.insert(key, m[key])) == (
            acc.insert(key, m[key]),
            tail,
        ));
    }
}

proof fn lemma_flake_section_reads_back(order: Seq<u64>, m: Map<u64, FlakeRecord>, tail: Seq<u8>)
    requires
        timestamps_fit(m),
        db_codec::enumerates(order, m.dom()),
        order.len() <= u32::MAX,
    ensures
        db_codec::flake_section_read(db_codec::flake_section_bytes(order, m) + tail, Map::empty())
            == (m, tail),
{
    let groups = db_codec::flake_groups_bytes(order, m);
    assert forall|i: int| 0 <= i < order.len() implies m.contains_key(#[trigger] order[i]) by {
        assert(order.to_set().contains(order[i]));
    }
    db_codec::lemma_u32_reads_back(order.len() as u32, groups + tail);
    assert(db_codec::flake_section_bytes(order, m) + tail =~= spec_u32_to_le_bytes(
        order.len() as u32,
    ) + (groups + tail));
    lemma_flake_groups_read_back(order, m, tail);
    lemma_inserted_all(order, m);
}

/// A compacted flake file reads back as the records it was made of. A last
/// failure at the largest timestamp would read back as none.
pub proof fn law_flake_file_reads_back(
    b: Seq<u8>,
    local: Map<u64, FlakeRecord>,
    remote: Map<u64, FlakeRecord>,
)
    requires
        db_codec::is_flake_bin(b, local, remote),
        timestamps_fit(local),
        timestamps_fit(remote),
        local.dom().len() <= u32::MAX,
        remote.dom().len() <= u32::MAX,
    ensures
        db_codec::flake_bin_read(b, Map::empty(), Map::empty()) == (local, remote),
{
    let (lo, ro) = choose|lo: Seq<u64>, ro: Seq<u64>|
        #![trigger db_codec::flake_section_bytes(lo, local), db_codec::flake_section_bytes(ro, remote)]
        db_codec::enumerates(lo, local.dom()) && db_codec::enumerates(ro, remote.dom()) && b
            == db_codec::flake_mark() + db_codec::flake_section_bytes(lo, local)
            + db_codec::flake_section_bytes(ro, remote);
    lo.unique_seq_to_set();
    ro.unique_seq_to_set();
    let ls = db_codec::flake_section_bytes(lo, local);
    let rs = db_codec::flake_section_bytes(ro, remote);
    assert(b.take(4) =~= db_codec::flake_mark());
    assert(b.skip(4) =~= ls + rs);
    lemma_flake_section_reads_back(lo, local, rs);
    lemma_flake_section_reads_back(ro, remote, Seq::empty());
    assert(rs + Seq::<u8>::empty() =~= rs);
}

proof fn lemma_names_read_in_two(b: Seq<u8>, n: nat, m: Map<u64, IdentityView>)
    ensures
        db_codec::names_read(b, n + 1, m) == db_codec::names_read(
            db_codec::names_read(b, n, m).1,
            1,
            db_codec::names_read(b, n, m).0,
        ),
    decreases n,
{
    if n > 0 && b.len() >= 8 {
        let id = db_codec::identity_read(b.skip(8));
        lemma_names_read_in_two(
            id.1,
            (n - 1) as nat,
            db_codec::named(m, db_codec::head_u64(b), id.0),
        );
    }
}

/// Whether every identity is short enough to be read back.
pub open spec fn names_fit(m: Map<u64, IdentityView>) -> bool {
    forall|k: u64| #[trigger] m.contains_key(k) ==> fits(m[k])
}

proof fn lemma_name_groups_read_back(order: Seq<u64>, m: Map<u64, IdentityView>, tail: Seq<u8>)
    requires
        names_fit(m),
        forall|i: int| 0 <= i < order.len() ==> m.contains_key(#[trigger] order[i]),
    ensures
        db_codec::names_read(
            db_codec::names_log_bytes(db_codec::entries_of(order, m)) + tail,
            order.len(),
            Map::empty(),
        ) == (inserted(Map::empty(), order, m), tail),
    decreases order.len(),
{
    let es = db_codec::entries_of(order, m);
    let b = db_codec::names_log_bytes(es) + tail;
    if order.len() == 0 {
        assert(b =~= tail);
    } else {
        let front = order.drop_last();
        let key = order.last();
        assert(es.drop_last() =~= db_codec::entries_of(front, m));
        assert(es.last() == (key, m[key]));
        let rest = db_codec::name_entry_bytes((key, m[key])) + tail;
        assert(m.contains_key(order[order.len() - 1]));
        assert forall|i: int| 0 <= i < front.len() implies m.contains_key(#[trigger] front[i]) by {
            assert(front[i] == order[i]);
        }
        lemma_name_groups_read_back(front, m, rest);
        assert(b =~= db_codec::names_log_bytes(db_codec::entries_of(front, m)) + rest);
        lemma_names_read_in_two(b, front.len(), Map::empty());
        lemma_name_entry((key, m[key]), tail);
        let acc = inserted(Map::empty(), front, m);
        assert(db_codec::names_read(tail, 0, acc.insert(key, m[key])) == (
            acc.insert(key, m[key]),
            tail,
        ));
    }
}

/// A compacted name file reads back as the names it was made of.
pub proof fn law_names_file_reads_back(b: Seq<u8>, m: Map<u64, IdentityView>)
    requires
        db_codec::is_names_bin(b, m),
        names_fit(m),
        m.dom().len() <= u32::MAX,
    ensures
        db_codec::names_bin_read(b, Map::empty()) == m,
{
    let order = choose|order: Seq<u64>|
        db_codec::enumerates(order, m.dom()) && b == #[trigger] db_codec::names_bin_bytes(order, m);
    order.unique_seq_to_set();
    assert forall|i: int| 0 <= i < order.len() implies m.contains_key(#[trigger] order[i]) by {
        assert(order.to_set().contains(order[i]));
    }
    let body = db_codec::names_log_bytes(db_codec::entries_of(order, m));
    db_codec::lemma_u32_reads_back(order.len() as u32, body);
    assert(b.take(4) =~= db_codec::names_mark());
    assert(b.skip(4) =~= spec_u32_to_le_bytes(order.len() as u32) + body);
    assert(b.skip(8) =~= body);
    lemma_name_groups_read_back(order, m, Seq::empty());
    assert(body + Seq::<u8>::empty() =~= body);
    lemma_inserted_all(order, m);
}

proof fn lemma_samples_read_len(b: Seq<u8>, n: nat, acc: Seq<DurationSample>)
    ensures
        db_codec::samples_read(b, n, acc).0.len() <= acc.len() + n,
    decreases n,
{
    if n > 0 && b.len() >= 16 {
        let sample = DurationSample {
            timestamp_ms: db_codec::head_u64(b),
            duration_ms: db_codec::head_u64(b.skip(8)),
        };
        lemma_samples_read_len(b.skip(16), (n - 1) as nat, acc.push(sample));
    }
}

proof fn lemma_perf_read_fits(b: Seq<u8>, n: nat, m: Map<u64, Seq<DurationSample>>)
    requires
        groups_fit(m),
    ensures
        groups_fit(db_codec::perf_read(b, n, m).0),
    decreases n,
{
    if n > 0 && b.len() >= 9 {
        let group = db_codec::samples_read(b.skip(9), b[8] as nat, Seq::empty());
        lemma_samples_read_len(b.skip(9), b[8] as nat, Seq::empty());
        lemma_perf_read_fits(
            group.1,
            (n - 1) as nat,
            m.insert(db_codec::head_u64(b), group.0),
        );
    }
}

proof fn lemma_perf_replay_fits(b: Seq<u8>, h: Histories)
    requires
        groups_fit(h.local.perf),
        groups_fit(h.remote.perf),
    ensures
        groups_fit(db_codec::perf_replayed(b, h).local.perf),
        groups_fit(db_codec::perf_replayed(b, h).remote.perf),
    decreases b.len(),
{
    if b.len() >= PERF_ENTRY {
        let entry = b.take(PERF_ENTRY as int);
        let sample = DurationSample {
            timestamp_ms: db_codec::head_u64(entry.skip(9)),
            duration_ms: db_codec::head_u64(entry.skip(17)),
        };
        let key = db_codec::head_u64(entry.skip(1));
        crate::order::lemma_ranked(duration_db::samples_at(h.local.perf, key).push(sample));
        crate::order::lemma_ranked(duration_db::samples_at(h.remote.perf, key).push(sample));
        lemma_perf_replay_fits(b.skip(PERF_ENTRY as int), h.with_perf_entry(entry));
    }
}

/// Replaying runs touches no sample.
proof fn lemma_flake_replay_keeps_samples(b: Seq<u8>, h: Histories)
    ensures
        db_codec::flake_replayed(b, h).local.perf == h.local.perf,
        db_codec::flake_replayed(b, h).remote.perf == h.remote.perf,
    decreases b.len(),
{
    if b.len() >= FLAKE_ENTRY {
        lemma_flake_replay_keeps_samples(
            b.skip(FLAKE_ENTRY as int),
            h.with_flake_entry(b.take(FLAKE_ENTRY as int)),
        );
    }
}

proof fn lemma_text_read_fits(b: Seq<u8>)
    ensures
        db_codec::text_read(b).0 matches Some(t) ==> encode_utf8(t).len() <= MAX_TEXT,
{
    if b.len() >= 4 {
        let n = db_codec::head_u32(b) as int;
        let rest = b.skip(4);
        if n <= MAX_TEXT && rest.len() >= n && valid_utf8(rest.take(n)) {
            decode_utf8_encode_utf8(rest.take(n));
        }
    }
}

proof fn lemma_identity_read_fits(b: Seq<u8>)
    ensures
        db_codec::identity_read(b).0 matches Some(id) ==> fits(id),
{
    let target = db_codec::text_read(b);
    lemma_text_read_fits(b);
    lemma_text_read_fits(target.1);
    lemma_text_read_fits(db_codec::text_read(target.1).1);
}

proof fn lemma_names_read_fits(b: Seq<u8>, n: nat, m: Map<u64, IdentityView>)
    requires
        names_fit(m),
    ensures
        names_fit(db_codec::names_read(b, n, m).0),
    decreases n,
{
    if n > 0 && b.len() >= 8 {
        let id = db_codec::identity_read(b.skip(8));
        lemma_identity_read_fits(b.skip(8));
        lemma_names_read_fits(
            id.1,
            (n - 1) as nat,
            db_codec::named(m, db_codec::head_u64(b), id.0),
        );
    }
}

proof fn lemma_names_replay_fits(b: Seq<u8>, m: Map<u64, IdentityView>)
    requires
        names_fit(m),
    ensures
        names_fit(db_codec::names_replayed(b, m)),
    decreases b.len(),
{
    if b.len() >= 8 {
        let id = db_codec::identity_read(b.skip(8));
        lemma_identity_read_fits(b.skip(8));
        db_codec::lemma_identity_read_shrinks(b.skip(8));
        lemma_names_replay_fits(id.1, db_codec::named(m, db_codec::head_u64(b), id.0));
    }
}

/// Folding the logs into the compacted files changes nothing: the store loaded
/// from the compacted files alone is the store loaded before. It holds for every
/// store whose tables have fewer than 2^32 entries and that has no failure at the
/// largest timestamp.
pub proof fn law_compaction_keeps_the_store(f: FilesView, g: FilesView)
    requires
        db_codec::is_perf_bin(g.perf_bin, duration_db::loaded(f).local.perf, duration_db::loaded(f).remote.perf),
        db_codec::is_flake_bin(g.flake_bin, duration_db::loaded(f).local.flake, duration_db::loaded(f).remote.flake),
        db_codec::is_names_bin(g.names_bin, duration_db::loaded(f).names),
        g.perf_log.len() == 0,
        g.flake_log.len() == 0,
        g.names_log.len() == 0,
        duration_db::loaded(f).local.perf.dom().len() <= u32::MAX,
        duration_db::loaded(f).remote.perf.dom().len() <= u32::MAX,
        duration_db::loaded(f).local.flake.dom().len() <= u32::MAX,
        duration_db::loaded(f).remote.flake.dom().len() <= u32::MAX,
        duration_db::loaded(f).names.dom().len() <= u32::MAX,
        timestamps_fit(duration_db::loaded(f).local.flake),
        timestamps_fit(duration_db::loaded(f).remote.flake),
    ensures
        duration_db::loaded(g) == duration_db::loaded(f),
{
    let d = duration_db::loaded(f);
    let none = Map::<u64, Seq<DurationSample>>::empty();
    let perf = db_codec::perf_bin_read(f.perf_bin, none, none);
    let h0 = Histories {
        local: EnvView { perf: perf.0, flake: Map::empty() },
        remote: EnvView { perf: perf.1, flake: Map::empty() },
    };
    let b = f.perf_bin.skip(4);
    if b.len() >= 4 {
        lemma_perf_read_fits(b.skip(4), db_codec::head_u32(b) as nat, none);
    }
    let c = db_codec::perf_section_read(b, none).1;
    if c.len() >= 4 {
        lemma_perf_read_fits(c.skip(4), db_codec::head_u32(c) as nat, none);
    }
    lemma_perf_replay_fits(f.perf_log, h0);
    lemma_perf_replay_keeps_flakes(f.perf_log, h0);
    let s = db_codec::perf_replayed(f.perf_log, h0);
    let fl = db_codec::flake_bin_read(f.flake_bin, s.local.flake, s.remote.flake);
    lemma_flake_replay_keeps_samples(
        f.flake_log,
        Histories {
            local: EnvView { flake: fl.0, ..s.local },
            remote: EnvView { flake: fl.1, ..s.remote },
        },
    );
    assert(groups_fit(d.local.perf) && groups_fit(d.remote.perf));
    let nb = f.names_bin;
    if nb.len() >= 8 {
        lemma_names_read_fits(
            nb.skip(8),
            db_codec::head_u32(nb.skip(4)) as nat,
            Map::empty(),
        );
    }
    lemma_names_replay_fits(f.names_log, db_codec::names_bin_read(nb, Map::empty()));
    law_perf_file_reads_back(g.perf_bin, d.local.perf, d.remote.perf);
    law_flake_file_reads_back(g.flake_bin, d.local.flake, d.remote.flake);
    law_names_file_reads_back(g.names_bin, d.names);
}

} // verus!
