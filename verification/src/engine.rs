use vstd::prelude::*;

use crate::codec::spec_decode_record;
use crate::codec::spec_encode_record;
use crate::codec::decode_record;
use crate::codec::encode_record;
use crate::codec::lemma_decode_encode_record;
use crate::codec::lemma_decode_record_valid;
use crate::message::Message;
use crate::message::all_wf;
use crate::metadata::Metadata;
use crate::metadata::ReadMarker;
use crate::metadata::marker_le;
use crate::metadata::marker_valid;
use crate::metadata::metadata_valid;
use crate::metadata::spec_latest_unread_trigger;
use crate::metadata::latest_triggers_unread;
use crate::metadata::lemma_latest_unread_trigger_valid;
use crate::metadata::lemma_marker_le_antisymmetric;
use crate::path::Kind;
use crate::path::spec_file_name;

verus! {

// The engine is the pure half of the persistence orchestration: the host
// reads the file's text (or fails to), hands it in, and writes back exactly
// the text returned. Every decision — defaulting, merging, refusing to
// regress a marker — is made and proved here.
pub open spec fn spec_default_record() -> Metadata {
    Metadata { read_marker: None, last_triggers_unread: None }
}

/// What a read of the file yields: `None` when it could not be read at all.
pub open spec fn contents_view(contents: Option<&str>) -> Option<Seq<char>> {
    match contents {
        Some(s) => Some(s@),
        None => None,
    }
}

/// The record a file's text stands for: a missing or undecodable file means
/// "nothing read yet", never an error.
pub open spec fn spec_load(contents: Option<Seq<char>>) -> Metadata {
    match contents {
        None => spec_default_record(),
        Some(s) => match spec_decode_record(s) {
            Some(m) => m,
            None => spec_default_record(),
        },
    }
}

/// The record that a full-refresh save persists for these messages and this
/// marker.
pub open spec fn spec_save_record(ms: Seq<Message>, rm: Option<ReadMarker>) -> Metadata {
    Metadata { read_marker: rm, last_triggers_unread: spec_latest_unread_trigger(ms) }
}

/// What `update` decides against the stored record: `None` when the stored
/// marker is already at or past the candidate (nothing to write), otherwise
/// the merged record, with the unread trigger carried over unchanged.
pub open spec fn spec_update_record(cur: Metadata, marker: ReadMarker) -> Option<Metadata> {
    match cur.read_marker {
        Some(existing) => if marker_le(marker, existing) {
            None
        } else {
            Some(
                Metadata {
                    read_marker: Some(marker),
                    last_triggers_unread: cur.last_triggers_unread,
                },
            )
        },
        None => Some(
            Metadata { read_marker: Some(marker), last_triggers_unread: cur.last_triggers_unread },
        ),
    }
}

/// Turns what was read from the file (or the failure to read it) into the
/// current record. Corrupt or missing text is the default record.
pub fn load(contents: Option<&str>) -> (r: Metadata)
    ensures
        r == spec_load(contents_view(contents)),
        metadata_valid(r),
{
    match contents {
        None => Metadata { read_marker: None, last_triggers_unread: None },
        Some(s) => {
            match decode_record(s) {
                Some(m) => m,
                None => Metadata { read_marker: None, last_triggers_unread: None },
            }
        },
    }
}

/// The full-refresh path: the text to persist, overwriting whatever was
/// stored, with the unread trigger re-derived from the messages.
pub fn save(messages: &[Message], read_marker: Option<ReadMarker>) -> (r: String)
    requires
        read_marker matches Some(m) ==> marker_valid(m),
        all_wf(messages@),
    ensures
        r@ == spec_encode_record(spec_save_record(messages@, read_marker)),
{
    let last = latest_triggers_unread(messages);
    proof {
        lemma_latest_unread_trigger_valid(messages@);
    }
    let m = Metadata { read_marker, last_triggers_unread: last };
    encode_record(&m)
}

/// The incremental path: merges a candidate marker into the stored text.
/// Returns the new text to persist, or `None` when the stored marker is
/// already at or past the candidate and the file must stay untouched.
pub fn update(contents: Option<&str>, read_marker: &ReadMarker) -> (r: Option<String>)
    requires
        marker_valid(*read_marker),
    ensures
        ({
            let cur = spec_load(contents_view(contents));
            match spec_update_record(cur, *read_marker) {
                None => r is None,
                Some(m) => match r {
                    Some(s) => s@ == spec_encode_record(m),
                    None => false,
                },
            }
        }),
{
    let cur = load(contents);
    match &cur.read_marker {
        Some(existing) => {
            if read_marker.le(existing) {
                return None;
            }
        },
        None => {},
    }
    let merged = Metadata {
        read_marker: Some(*read_marker),
        last_triggers_unread: cur.last_triggers_unread,
    };
    Some(encode_record(&merged))
}

// ----------------------------------------------------------------------
// The store model: the file system as a map from file name to file text.
// The host performs each read and write; these functions state what one
// `save` or `update` call does to that map, and the lemmas below prove the
// monotonicity, idempotence and isolation guarantees over it.
/// What a read of `name` yields from the store.
pub open spec fn store_read(store: Map<Seq<char>, Seq<char>>, name: Seq<char>) -> Option<
    Seq<char>,
> {
    if store.contains_key(name) {
        Some(store[name])
    } else {
        None
    }
}

/// The record currently held for `name`.
pub open spec fn store_loaded(store: Map<Seq<char>, Seq<char>>, name: Seq<char>) -> Metadata {
    spec_load(store_read(store, name))
}

/// The store after a full-refresh save under `name`.
pub open spec fn spec_apply_save(
    store: Map<Seq<char>, Seq<char>>,
    name: Seq<char>,
    ms: Seq<Message>,
    rm: Option<ReadMarker>,
) -> Map<Seq<char>, Seq<char>> {
    store.insert(name, spec_encode_record(spec_save_record(ms, rm)))
}

/// The store after an incremental update under `name`: unchanged when the
/// stored marker is already at or past the candidate.
pub open spec fn spec_apply_update(
    store: Map<Seq<char>, Seq<char>>,
    name: Seq<char>,
    marker: ReadMarker,
) -> Map<Seq<char>, Seq<char>> {
    match spec_update_record(store_loaded(store, name), marker) {
        None => store,
        Some(m) => store.insert(name, spec_encode_record(m)),
    }
}

/// Every loaded record is valid: decoding only ever yields valid fields, and
/// the default record is trivially valid.
pub proof fn lemma_spec_load_valid(contents: Option<Seq<char>>)
    ensures
        metadata_valid(spec_load(contents)),
{
    match contents {
        Some(s) => lemma_decode_record_valid(s),
        None => {},
    }
}

/// The larger of two markers under the marker order.
pub open spec fn marker_max(a: ReadMarker, b: ReadMarker) -> ReadMarker {
    if marker_le(a, b) {
        b
    } else {
        a
    }
}

/// The running maximum of `cur` and every marker in `ms`.
pub open spec fn fold_max(cur: ReadMarker, ms: Seq<ReadMarker>) -> ReadMarker
    decreases ms.len(),
{
    if ms.len() == 0 {
        cur
    } else {
        fold_max(marker_max(cur, ms[0]), ms.drop_first())
    }
}

/// The maximum of a non-empty marker sequence.
pub open spec fn spec_max_marker(ms: Seq<ReadMarker>) -> ReadMarker {
    fold_max(ms[0], ms.drop_first())
}

pub open spec fn all_markers_valid(ms: Seq<ReadMarker>) -> bool {
    forall|i: int| 0 <= i < ms.len() ==> marker_valid(#[trigger] ms[i])
}

/// The store after the updates in `ms` are applied in order under `name`.
pub open spec fn spec_apply_updates(
    store: Map<Seq<char>, Seq<char>>,
    name: Seq<char>,
    ms: Seq<ReadMarker>,
) -> Map<Seq<char>, Seq<char>>
    decreases ms.len(),
{
    if ms.len() == 0 {
        store
    } else {
        spec_apply_updates(spec_apply_update(store, name, ms[0]), name, ms.drop_first())
    }
}

/// Idempotence: an update whose candidate is at or before the stored marker
/// leaves the store — the file's text included — exactly as it was.
pub proof fn lemma_update_idempotent(
    store: Map<Seq<char>, Seq<char>>,
    name: Seq<char>,
    marker: ReadMarker,
)
    requires
        store_loaded(store, name).read_marker matches Some(existing) && marker_le(marker, existing),
    ensures
        spec_apply_update(store, name, marker) == store,
{
}

/// Key isolation: a save under one file name reads and writes nothing under
/// any other name.
pub proof fn lemma_save_isolated(
    store: Map<Seq<char>, Seq<char>>,
    name: Seq<char>,
    other: Seq<char>,
    ms: Seq<Message>,
    rm: Option<ReadMarker>,
)
    requires
        name != other,
    ensures
        store_read(spec_apply_save(store, name, ms, rm), other) == store_read(store, other),
{
}

/// Key isolation: an update under one file name reads and writes nothing
/// under any other name.
pub proof fn lemma_update_isolated(
    store: Map<Seq<char>, Seq<char>>,
    name: Seq<char>,
    other: Seq<char>,
    marker: ReadMarker,
)
    requires
        name != other,
    ensures
        store_read(spec_apply_update(store, name, marker), other) == store_read(store, other),
{
}

/// Monotonicity of a single step: after an update the stored marker is
/// present and is the larger of the stored and the candidate marker — an
/// update never lowers what is persisted.
pub proof fn lemma_update_never_regresses(
    store: Map<Seq<char>, Seq<char>>,
    name: Seq<char>,
    marker: ReadMarker,
)
    requires
        marker_valid(marker),
    ensures
        store_loaded(spec_apply_update(store, name, marker), name).read_marker matches Some(after)
            && marker_le(marker, after) && (store_loaded(store, name).read_marker matches Some(
        before,
        ) ==> marker_le(before, after)),
{
    lemma_spec_load_valid(store_read(store, name));
    let cur = store_loaded(store, name);
    match spec_update_record(cur, marker) {
        None => {},
        Some(m) => {
            lemma_decode_encode_record(m);
            assert(store_loaded(store.insert(name, spec_encode_record(m)), name) == m);
        },
    }
}

/// Conversation isolation: a save or update for one (server, conversation)
/// pair reads and writes nothing under the file name of any other pair, as
/// long as the two pairs resolve to distinct file names. Distinct pairs can
/// resolve to the same name only through a collision of the 64-bit content
/// hash (or of the canonical names themselves), the accepted residual risk
/// of the naming scheme.
pub proof fn lemma_conversation_isolated(
    store: Map<Seq<char>, Seq<char>>,
    server_a: Seq<char>,
    kind_a: Kind,
    server_b: Seq<char>,
    kind_b: Kind,
    ms: Seq<Message>,
    rm: Option<ReadMarker>,
    marker: ReadMarker,
)
    requires
        spec_file_name(server_a, kind_a) != spec_file_name(server_b, kind_b),
    ensures
        store_read(
            spec_apply_save(store, spec_file_name(server_a, kind_a), ms, rm),
            spec_file_name(server_b, kind_b),
        ) == store_read(store, spec_file_name(server_b, kind_b)),
        store_read(
            spec_apply_update(store, spec_file_name(server_a, kind_a), marker),
            spec_file_name(server_b, kind_b),
        ) == store_read(store, spec_file_name(server_b, kind_b)),
{
    lemma_save_isolated(store, spec_file_name(server_a, kind_a), spec_file_name(server_b, kind_b), ms, rm);
    lemma_update_isolated(store, spec_file_name(server_a, kind_a), spec_file_name(server_b, kind_b), marker);
}

/// One step of the running maximum, given antisymmetry on valid markers.
proof fn lemma_marker_max_step(cur: ReadMarker, m: ReadMarker)
    requires
        marker_valid(cur),
        marker_valid(m),
    ensures
        marker_le(m, cur) ==> marker_max(cur, m) == cur,
        !marker_le(m, cur) ==> marker_max(cur, m) == m,
{
    if marker_le(m, cur) && marker_le(cur, m) {
        lemma_marker_le_antisymmetric(cur, m);
    }
}

/// After any run of updates starting from a stored marker `cur`, the stored
/// marker is the running maximum of `cur` and every candidate.
proof fn lemma_updates_fold_max(
    store: Map<Seq<char>, Seq<char>>,
    name: Seq<char>,
    ms: Seq<ReadMarker>,
    cur: ReadMarker,
)
    requires
        all_markers_valid(ms),
        marker_valid(cur),
        store_loaded(store, name).read_marker == Some(cur),
    ensures
        store_loaded(spec_apply_updates(store, name, ms), name).read_marker == Some(
            fold_max(cur, ms),
        ),
        store_loaded(spec_apply_updates(store, name, ms), name).last_triggers_unread
            == store_loaded(store, name).last_triggers_unread,
    decreases ms.len(),
{
    if ms.len() == 0 {
    } else {
        let m = ms[0];
        assert(marker_valid(m));
        lemma_spec_load_valid(store_read(store, name));
        lemma_marker_max_step(cur, m);
        if marker_le(m, cur) {
            assert(spec_apply_update(store, name, m) == store);
            assert(marker_max(cur, m) == cur);
            lemma_updates_fold_max(store, name, ms.drop_first(), cur);
        } else {
            let merged = Metadata {
                read_marker: Some(m),
                last_triggers_unread: store_loaded(store, name).last_triggers_unread,
            };
            let store2 = store.insert(name, spec_encode_record(merged));
            assert(spec_apply_update(store, name, m) == store2);
            lemma_decode_encode_record(merged);
            assert(store_loaded(store2, name) == merged);
            assert(marker_max(cur, m) == m);
            lemma_updates_fold_max(store2, name, ms.drop_first(), m);
        }
    }
}

/// Monotonicity: starting from a record with no marker, a sequence of
/// updates applied in order leaves the maximum of all candidates as the
/// stored marker.
pub proof fn lemma_sequential_updates_reach_max(
    store: Map<Seq<char>, Seq<char>>,
    name: Seq<char>,
    ms: Seq<ReadMarker>,
)
    requires
        ms.len() > 0,
        all_markers_valid(ms),
        store_loaded(store, name).read_marker is None,
    ensures
        store_loaded(spec_apply_updates(store, name, ms), name).read_marker == Some(
            spec_max_marker(ms),
        ),
    decreases ms.len(),
{
    let m = ms[0];
    assert(marker_valid(m));
    lemma_spec_load_valid(store_read(store, name));
    let merged = Metadata {
        read_marker: Some(m),
        last_triggers_unread: store_loaded(store, name).last_triggers_unread,
    };
    let store2 = store.insert(name, spec_encode_record(merged));
    assert(spec_apply_update(store, name, m) == store2);
    lemma_decode_encode_record(merged);
    assert(store_loaded(store2, name) == merged);
    lemma_updates_fold_max(store2, name, ms.drop_first(), m);
}

/// The maximum of a non-empty valid sequence is one of its elements, and no
/// element is above it.
pub proof fn lemma_max_marker_props(ms: Seq<ReadMarker>)
    requires
        ms.len() > 0,
        all_markers_valid(ms),
    ensures
        exists|i: int| 0 <= i < ms.len() && ms[i] == spec_max_marker(ms),
        forall|i: int| 0 <= i < ms.len() ==> marker_le(#[trigger] ms[i], spec_max_marker(ms)),
{
    lemma_fold_max_props(ms[0], ms.drop_first());
    assert forall|i: int| 0 <= i < ms.len() implies marker_le(
        #[trigger] ms[i],
        spec_max_marker(ms),
    ) by {
        if i > 0 {
            assert(ms[i] == ms.drop_first()[i - 1]);
        }
    }
}

proof fn lemma_fold_max_props(cur: ReadMarker, ms: Seq<ReadMarker>)
    requires
        marker_valid(cur),
        all_markers_valid(ms),
    ensures
        fold_max(cur, ms) == cur || exists|i: int| 0 <= i < ms.len() && ms[i] == fold_max(cur, ms),
        marker_le(cur, fold_max(cur, ms)),
        forall|i: int| 0 <= i < ms.len() ==> marker_le(#[trigger] ms[i], fold_max(cur, ms)),
        marker_valid(fold_max(cur, ms)),
    decreases ms.len(),
{
    if ms.len() == 0 {
    } else {
        let next = marker_max(cur, ms[0]);
        assert(marker_valid(next));
        lemma_fold_max_props(next, ms.drop_first());
        assert(marker_le(cur, next));
        assert(marker_le(ms[0], next));
        assert(fold_max(cur, ms) == fold_max(next, ms.drop_first()));
        assert forall|i: int| 0 <= i < ms.len() implies marker_le(
            #[trigger] ms[i],
            fold_max(cur, ms),
        ) by {
            if i == 0 {
                assert(marker_le(next, fold_max(next, ms.drop_first())));
            } else {
                assert(ms[i] == ms.drop_first()[i - 1]);
                assert(marker_le(ms.drop_first()[i - 1], fold_max(next, ms.drop_first())));
            }
        }
        if fold_max(cur, ms) != cur {
            if fold_max(next, ms.drop_first()) == next {
                if next == ms[0] {
                    assert(ms[0] == fold_max(cur, ms));
                }
            }
        }
    }
}

} // verus!
