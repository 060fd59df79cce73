//! Snapshots of a conversation, and a store for them.

use crate::clock;
use crate::ids;
use crate::json;
use crate::json::{Json, JsonView};
use crate::providers::traits;
use crate::providers::traits::{ChatMessage, MessageView};
use crate::sorting;
use crate::text;
use crate::tools::mcp_protocol;
use vstd::prelude::*;

verus! {

/// A snapshot of conversation state at a point in time.
#[derive(Debug)]
pub struct Checkpoint {
    pub id: String,
    pub session_id: String,
    pub label: Option<String>,
    pub history: Vec<ChatMessage>,
    pub turn_count: usize,
    pub metadata: Option<Json>,
    pub created_at: String,
}

/// What a checkpoint says.
#[verifier::ext_equal]
pub struct CheckpointView {
    pub id: Seq<char>,
    pub session_id: Seq<char>,
    pub label: Option<Seq<char>>,
    pub history: Seq<MessageView>,
    pub turn_count: usize,
    pub metadata: Option<JsonView>,
    pub created_at: Seq<char>,
}

impl View for Checkpoint {
    type V = CheckpointView;

    open spec fn view(&self) -> CheckpointView {
        CheckpointView {
            id: self.id@,
            session_id: self.session_id@,
            label: text::view_opt_string(self.label),
            history: traits::message_views(self.history@),
            turn_count: self.turn_count,
            metadata: mcp_protocol::json_opt(self.metadata),
            created_at: self.created_at@,
        }
    }
}

impl Clone for Checkpoint {
    fn clone(&self) -> (r: Self)
        ensures
            r@ == self@,
    {
        Checkpoint {
            id: self.id.clone(),
            session_id: self.session_id.clone(),
            label: match &self.label {
                Some(l) => Some(l.clone()),
                None => None,
            },
            history: traits::copied_messages(self.history.as_slice()),
            turn_count: self.turn_count,
            metadata: mcp_protocol::copied_opt(&self.metadata),
            created_at: self.created_at.clone(),
        }
    }
}

/// A checkpoint of a conversation.
pub open spec fn checkpoint_of(
    id: Seq<char>,
    created_at: Seq<char>,
    session_id: Seq<char>,
    label: Option<Seq<char>>,
    history: Seq<MessageView>,
    metadata: Option<JsonView>,
) -> CheckpointView {
    CheckpointView {
        id,
        session_id,
        label,
        history,
        turn_count: history.len() as usize,
        metadata,
        created_at,
    }
}

/// A checkpoint with the given ID and timestamp.
pub fn checkpoint_with(
    id: String,
    created_at: String,
    session_id: &str,
    label: Option<&str>,
    history: &[ChatMessage],
    metadata: Option<Json>,
) -> (r: Checkpoint)
    ensures
        r@ == checkpoint_of(
            id@,
            created_at@,
            session_id@,
            text::view_opt(label),
            traits::message_views(history@),
            mcp_protocol::json_opt(metadata),
        ),
{
    Checkpoint {
        id,
        session_id: session_id.to_string(),
        label: match label {
            Some(l) => Some(l.to_string()),
            None => None,
        },
        history: traits::copied_messages(history),
        turn_count: history.len(),
        metadata,
        created_at,
    }
}

/// Create a new checkpoint with a generated ID and timestamp.
pub fn create_checkpoint(
    session_id: &str,
    label: Option<&str>,
    history: &[ChatMessage],
    metadata: Option<Json>,
) -> (r: Checkpoint)
    ensures
        ids::is_uuid_v4(r.id@),
        ids::is_drawn(r.id@),
        text::has_suffix(r.created_at@, "+00:00"@),
        clock::is_timestamp(r.created_at@),
        r@ == checkpoint_of(
            r.id@,
            r.created_at@,
            session_id@,
            text::view_opt(label),
            traits::message_views(history@),
            mcp_protocol::json_opt(metadata),
        ),
{
    checkpoint_with(ids::new_id(), clock::timestamp(), session_id, label, history, metadata)
}

// ---------------------------------------------------------------------------
// InMemoryCheckpointStore
// ---------------------------------------------------------------------------

/// What checkpoints say.
pub open spec fn checkpoint_views(s: Seq<Checkpoint>) -> Seq<CheckpointView> {
    s.map_values(|c: Checkpoint| c@)
}

/// The place of the first checkpoint with the given ID.
pub open spec fn place_of(store: Seq<CheckpointView>, id: Seq<char>) -> Option<int>
    decreases store.len(),
{
    if store.len() == 0 {
        None
    } else if store[0].id == id {
        Some(0int)
    } else {
        match place_of(store.skip(1), id) {
            Some(i) => Some(i + 1),
            None => None,
        }
    }
}

/// The store with a checkpoint saved: in the place of the one with its ID, or
/// at the end.
pub open spec fn saved(store: Seq<CheckpointView>, c: CheckpointView) -> Seq<CheckpointView> {
    match place_of(store, c.id) {
        Some(i) => store.update(i, c),
        None => store.push(c),
    }
}

/// The checkpoint with the given ID.
pub open spec fn loaded(store: Seq<CheckpointView>, id: Seq<char>) -> Option<CheckpointView> {
    match place_of(store, id) {
        Some(i) => Some(store[i]),
        None => None,
    }
}

/// The checkpoints without those of the given ID.
pub open spec fn without_id(store: Seq<CheckpointView>, id: Seq<char>) -> Seq<CheckpointView>
    decreases store.len(),
{
    if store.len() == 0 {
        store
    } else {
        let before = without_id(store.drop_last(), id);
        if store.last().id != id {
            before.push(store.last())
        } else {
            before
        }
    }
}

/// The checkpoints of a session, or those of all others.
pub open spec fn of_session(
    store: Seq<CheckpointView>,
    session_id: Seq<char>,
    inside: bool,
) -> Seq<CheckpointView>
    decreases store.len(),
{
    if store.len() == 0 {
        store
    } else {
        let before = of_session(store.drop_last(), session_id, inside);
        if (store.last().session_id == session_id) == inside {
            before.push(store.last())
        } else {
            before
        }
    }
}

/// `sorted` lists `found` from the newest to the oldest, by the text of their
/// timestamps; those of one timestamp in the order in which they stand.
pub open spec fn newest_first(found: Seq<CheckpointView>, sorted: Seq<CheckpointView>) -> bool {
    exists|places: Seq<usize>| #[trigger]
        sorting::is_arrangement(places, found.len() as int) && lists_newest_first(
            found,
            sorted,
            places,
        )
}

/// As `newest_first`, with the places at which they stand.
pub open spec fn lists_newest_first(
    found: Seq<CheckpointView>,
    sorted: Seq<CheckpointView>,
    places: Seq<usize>,
) -> bool {
    &&& sorted.len() == places.len()
    &&& forall|k: int| 0 <= k < sorted.len() ==> #[trigger] sorted[k] == found[places[k] as int]
    &&& forall|k: int, m: int|
        0 <= k < m < sorted.len() ==> text::precedes(
            (#[trigger] sorted[m]).created_at,
            (#[trigger] sorted[k]).created_at,
        ) || (sorted[k].created_at == sorted[m].created_at && places[k] < places[m])
}

/// In-memory checkpoint store.
pub struct InMemoryCheckpointStore {
    checkpoints: Vec<Checkpoint>,
}

impl View for InMemoryCheckpointStore {
    type V = Seq<CheckpointView>;

    closed spec fn view(&self) -> Seq<CheckpointView> {
        checkpoint_views(self.checkpoints@)
    }
}

impl InMemoryCheckpointStore {
    pub fn new() -> (r: Self)
        ensures
            r@ == Seq::<CheckpointView>::empty(),
    {
        let r = InMemoryCheckpointStore { checkpoints: Vec::new() };
        proof {
            assert(r@ =~= Seq::<CheckpointView>::empty());
        }
        r
    }

    fn place(&self, id: &str) -> (r: Option<usize>)
        ensures
            match r {
                Some(i) => place_of(self@, id@) == Some(i as int) && i < self.checkpoints@.len(),
                None => place_of(self@, id@) is None,
            },
    {
        let ghost all = self@;
        proof {
            assert(all.skip(0) =~= all);
        }
        for i in 0..self.checkpoints.len()
            invariant
                all == self@,
                match place_of(all.skip(i as int), id@) {
                    Some(k) => place_of(all, id@) == Some(k + i),
                    None => place_of(all, id@) is None,
                },
        {
            proof {
                assert(all.skip(i as int)[0] == self.checkpoints@[i as int]@);
                assert(all.skip(i as int).skip(1) =~= all.skip(i + 1));
            }
            if text::same_text(self.checkpoints[i].id.as_str(), id) {
                return Some(i);
            }
        }
        None
    }

    /// Saves a checkpoint and gives back its ID.
    pub fn save(&mut self, checkpoint: &Checkpoint) -> (r: String)
        ensures
            r@ == checkpoint.id@,
            final(self)@ == saved(old(self)@, checkpoint@),
    {
        let ghost before = self.checkpoints@;
        match self.place(checkpoint.id.as_str()) {
            Some(i) => {
                self.checkpoints.set(i, checkpoint.clone());
                proof {
                    assert(self@ =~= checkpoint_views(before).update(i as int, checkpoint@));
                }
            },
            None => {
                self.checkpoints.push(checkpoint.clone());
                proof {
                    assert(self@ =~= checkpoint_views(before).push(checkpoint@));
                }
            },
        }
        checkpoint.id.clone()
    }

    /// The checkpoint with the given ID.
    pub fn load(&self, id: &str) -> (r: Option<Checkpoint>)
        ensures
            match r {
                Some(c) => loaded(self@, id@) == Some(c@),
                None => loaded(self@, id@) is None,
            },
    {
        match self.place(id) {
            Some(i) => Some(self.checkpoints[i].clone()),
            None => None,
        }
    }

    /// The checkpoints of a session, newest first.
    pub fn list(&self, session_id: &str) -> (r: Vec<Checkpoint>)
        ensures
            newest_first(of_session(self@, session_id@, true), checkpoint_views(r@)),
    {
        let ghost all = self@;
        let mut found: Vec<Checkpoint> = Vec::new();
        let mut keys: Vec<sorting::Descending<String>> = Vec::new();
        proof {
            assert(checkpoint_views(found@) =~= of_session(all.take(0), session_id@, true));
        }
        for i in 0..self.checkpoints.len()
            invariant
                all == self@,
                checkpoint_views(found@) == of_session(all.take(i as int), session_id@, true),
                keys@.len() == found@.len(),
                forall|k: int|
                    0 <= k < keys@.len() ==> (#[trigger] keys@[k]).0@ == found@[k].created_at@,
        {
            let ghost before = found@;
            proof {
                assert(all.take(i + 1).drop_last() =~= all.take(i as int));
                assert(all.take(i + 1).last() == self.checkpoints@[i as int]@);
            }
            if text::same_text(self.checkpoints[i].session_id.as_str(), session_id) {
                found.push(self.checkpoints[i].clone());
                keys.push(sorting::Descending(self.checkpoints[i].created_at.clone()));
                proof {
                    assert(checkpoint_views(found@) =~= checkpoint_views(before).push(
                        self.checkpoints@[i as int]@,
                    ));
                }
            }
        }
        proof {
            assert(all.take(all.len() as int) =~= all);
        }
        let places = sorting::order_of(&keys);
        let mut r: Vec<Checkpoint> = Vec::new();
        for k in 0..places.len()
            invariant
                sorting::is_arrangement(places@, found@.len() as int),
                r@.len() == k,
                forall|m: int| 0 <= m < k ==> (#[trigger] r@[m])@ == found@[places@[m] as int]@,
        {
            proof {
                assert(places@[k as int] < found@.len());
            }
            r.push(found[places[k]].clone());
        }
        proof {
            let views = checkpoint_views(found@);
            let sorted = checkpoint_views(r@);
            assert forall|k: int| 0 <= k < sorted.len() implies #[trigger] sorted[k]
                == views[places@[k] as int] by {
                assert(places@[k] < found@.len());
                assert(r@[k]@ == found@[places@[k] as int]@);
            }
            assert forall|k: int, m: int| 0 <= k < m < sorted.len() implies text::precedes(
                (#[trigger] sorted[m]).created_at,
                (#[trigger] sorted[k]).created_at,
            ) || (sorted[k].created_at == sorted[m].created_at && places@[k] < places@[m]) by {
                let x = places@[k] as int;
                let y = places@[m] as int;
                assert(sorting::comes_first(keys@, x, y));
                assert(keys@[x].0@ == found@[x].created_at@);
                assert(keys@[y].0@ == found@[y].created_at@);
                text::lemma_precedes_total(keys@[x].0@, keys@[y].0@);
                assert(sorted[k] == views[x] && sorted[m] == views[y]);
            }
            assert(sorting::is_arrangement(places@, views.len() as int) && lists_newest_first(
                views,
                sorted,
                places@,
            ));
        }
        r
    }

    /// Deletes the checkpoint with the given ID; whether there was one.
    pub fn delete(&mut self, id: &str) -> (r: bool)
        ensures
            final(self)@ == without_id(old(self)@, id@),
            r == (final(self)@.len() < old(self)@.len()),
    {
        let ghost all = self@;
        let mut kept: Vec<Checkpoint> = Vec::new();
        proof {
            assert(checkpoint_views(kept@) =~= without_id(all.take(0), id@));
        }
        for i in 0..self.checkpoints.len()
            invariant
                all == self@,
                checkpoint_views(kept@) == without_id(all.take(i as int), id@),
        {
            let ghost before = kept@;
            proof {
                assert(all.take(i + 1).drop_last() =~= all.take(i as int));
                assert(all.take(i + 1).last() == self.checkpoints@[i as int]@);
            }
            if !text::same_text(self.checkpoints[i].id.as_str(), id) {
                kept.push(self.checkpoints[i].clone());
                proof {
                    assert(checkpoint_views(kept@) =~= checkpoint_views(before).push(
                        self.checkpoints@[i as int]@,
                    ));
                }
            }
        }
        proof {
            assert(all.take(all.len() as int) =~= all);
            assert(checkpoint_views(kept@).len() == kept@.len());
            assert(all.len() == self.checkpoints@.len());
        }
        let removed = kept.len() < self.checkpoints.len();
        self.checkpoints = kept;
        removed
    }

    /// Deletes the checkpoints of a session; how many there were.
    pub fn clear_session(&mut self, session_id: &str) -> (r: usize)
        ensures
            final(self)@ == of_session(old(self)@, session_id@, false),
            r == old(self)@.len() - final(self)@.len(),
    {
        let ghost all = self@;
        let mut kept: Vec<Checkpoint> = Vec::new();
        proof {
            assert(checkpoint_views(kept@) =~= of_session(all.take(0), session_id@, false));
        }
        for i in 0..self.checkpoints.len()
            invariant
                all == self@,
                checkpoint_views(kept@) == of_session(all.take(i as int), session_id@, false),
                kept@.len() <= i,
        {
            let ghost before = kept@;
            proof {
                assert(all.take(i + 1).drop_last() =~= all.take(i as int));
                assert(all.take(i + 1).last() == self.checkpoints@[i as int]@);
            }
            if !text::same_text(self.checkpoints[i].session_id.as_str(), session_id) {
                kept.push(self.checkpoints[i].clone());
                proof {
                    assert(checkpoint_views(kept@) =~= checkpoint_views(before).push(
                        self.checkpoints@[i as int]@,
                    ));
                }
            }
        }
        proof {
            assert(all.take(all.len() as int) =~= all);
            assert(checkpoint_views(kept@).len() == kept@.len());
            assert(all.len() == self.checkpoints@.len());
        }
        let removed: usize = self.checkpoints.len() - kept.len();
        self.checkpoints = kept;
        removed
    }
}

// ---------------------------------------------------------------------------
// Checkpoints as rows of a table
// ---------------------------------------------------------------------------

/// A checkpoint as a row of a table, but for its history. The metadata are JSON
/// text.
pub struct CheckpointRow {
    pub id: String,
    pub session_id: String,
    pub label: Option<String>,
    pub turn_count: usize,
    pub metadata: Option<String>,
    pub created_at: String,
}

/// What a row says.
#[verifier::ext_equal]
pub struct RowView {
    pub id: Seq<char>,
    pub session_id: Seq<char>,
    pub label: Option<Seq<char>>,
    pub turn_count: usize,
    pub metadata: Option<Seq<char>>,
    pub created_at: Seq<char>,
}

impl View for CheckpointRow {
    type V = RowView;

    open spec fn view(&self) -> RowView {
        RowView {
            id: self.id@,
            session_id: self.session_id@,
            label: text::view_opt_string(self.label),
            turn_count: self.turn_count,
            metadata: text::view_opt_string(self.metadata),
            created_at: self.created_at@,
        }
    }
}

/// The row of a checkpoint.
pub open spec fn row_of(c: CheckpointView) -> RowView {
    RowView {
        id: c.id,
        session_id: c.session_id,
        label: c.label,
        turn_count: c.turn_count,
        metadata: match c.metadata {
            Some(j) => Some(json::json_text(j)),
            None => None,
        },
        created_at: c.created_at,
    }
}

/// The metadata of a checkpoint come back from their text.
pub open spec fn metadata_reads_back(c: CheckpointView) -> bool {
    match c.metadata {
        Some(j) => json::json_parse(json::json_text(j)) == Some(j),
        None => true,
    }
}

/// The metadata of a checkpoint are of the kind that is known to come back from
/// its text.
pub open spec fn has_exact_metadata(c: CheckpointView) -> bool {
    match c.metadata {
        Some(j) => json::is_canonical(j, json::EXACT_DEPTH as nat),
        None => true,
    }
}

/// The row of a checkpoint.
pub fn to_row(c: &Checkpoint) -> (r: CheckpointRow)
    ensures
        r@ == row_of(c@),
        has_exact_metadata(c@) ==> metadata_reads_back(c@),
{
    CheckpointRow {
        id: c.id.clone(),
        session_id: c.session_id.clone(),
        label: match &c.label {
            Some(l) => Some(l.clone()),
            None => None,
        },
        turn_count: c.turn_count,
        metadata: match &c.metadata {
            Some(j) => Some(json::to_text(j)),
            None => None,
        },
        created_at: c.created_at.clone(),
    }
}

/// The checkpoint that a row and a history make; none where the metadata are
/// not JSON.
pub open spec fn row_checkpoint(row: RowView, history: Seq<MessageView>) -> Option<CheckpointView> {
    let whole = CheckpointView {
        id: row.id,
        session_id: row.session_id,
        label: row.label,
        history,
        turn_count: row.turn_count,
        metadata: None,
        created_at: row.created_at,
    };
    match row.metadata {
        None => Some(whole),
        Some(t) => match json::json_parse(t) {
            Some(j) => Some(CheckpointView { metadata: Some(j), ..whole }),
            None => None,
        },
    }
}

/// The checkpoint that a row and a history make; none where the metadata are
/// not JSON.
pub fn from_row(row: CheckpointRow, history: Vec<ChatMessage>) -> (r: Option<Checkpoint>)
    ensures
        match r {
            Some(c) => row_checkpoint(row@, traits::message_views(history@)) == Some(c@),
            None => row_checkpoint(row@, traits::message_views(history@)) is None,
        },
{
    let metadata = match &row.metadata {
        None => None,
        Some(t) => match json::parse(t.as_str()) {
            Some(j) => Some(j),
            None => {
                return None;
            },
        },
    };
    Some(
        Checkpoint {
            id: row.id,
            session_id: row.session_id,
            label: row.label,
            history,
            turn_count: row.turn_count,
            metadata,
            created_at: row.created_at,
        },
    )
}

// ---------------------------------------------------------------------------
// Laws
// ---------------------------------------------------------------------------

proof fn lemma_place(store: Seq<CheckpointView>, id: Seq<char>)
    ensures
        match place_of(store, id) {
            Some(i) => 0 <= i < store.len() && store[i].id == id && forall|j: int|
                0 <= j < i ==> (#[trigger] store[j]).id != id,
            None => forall|j: int| 0 <= j < store.len() ==> (#[trigger] store[j]).id != id,
        },
    decreases store.len(),
{
    if store.len() > 0 && store[0].id != id {
        let rest = store.skip(1);
        lemma_place(rest, id);
        assert forall|j: int| 0 < j < store.len() implies #[trigger] store[j] == rest[j - 1] by {}
        match place_of(rest, id) {
            Some(i) => {
                assert(store[i + 1] == rest[i]);
                assert forall|j: int| 0 <= j < i + 1 implies (#[trigger] store[j]).id != id by {
                    if j > 0 {
                        assert(rest[j - 1].id != id);
                    }
                }
            },
            None => {
                assert forall|j: int| 0 <= j < store.len() implies (#[trigger] store[j]).id != id by {
                    if j > 0 {
                        assert(rest[j - 1].id != id);
                    }
                }
            },
        }
    }
}

proof fn lemma_place_is(store: Seq<CheckpointView>, id: Seq<char>, i: int)
    requires
        0 <= i < store.len(),
        store[i].id == id,
        forall|j: int| 0 <= j < i ==> (#[trigger] store[j]).id != id,
    ensures
        place_of(store, id) == Some(i),
{
    lemma_place(store, id);
    match place_of(store, id) {
        Some(k) => {
            if k < i {
                assert(store[k].id != id);
            }
            if i < k {
                assert(store[i].id != id);
            }
        },
        None => {
            assert(store[i].id != id);
        },
    }
}

proof fn lemma_no_place(store: Seq<CheckpointView>, id: Seq<char>)
    requires
        forall|j: int| 0 <= j < store.len() ==> (#[trigger] store[j]).id != id,
    ensures
        place_of(store, id) is None,
{
    lemma_place(store, id);
    match place_of(store, id) {
        Some(k) => {
            assert(store[k].id != id);
        },
        None => {},
    }
}

/// What was saved is loaded again, and saving it changes no other checkpoint.
pub proof fn law_load_gives_back_what_was_saved(
    store: Seq<CheckpointView>,
    c: CheckpointView,
    other: Seq<char>,
)
    ensures
        loaded(saved(store, c), c.id) == Some(c),
        other != c.id ==> loaded(saved(store, c), other) == loaded(store, other),
{
    lemma_place(store, c.id);
    lemma_place(store, other);
    let after = saved(store, c);
    match place_of(store, c.id) {
        Some(i) => {
            assert forall|j: int| 0 <= j < i implies (#[trigger] after[j]).id != c.id by {
                assert(store[j].id != c.id);
            }
            lemma_place_is(after, c.id, i);
            if other != c.id {
                match place_of(store, other) {
                    Some(k) => {
                        assert forall|j: int| 0 <= j < k implies (#[trigger] after[j]).id != other by {
                            assert(store[j].id != other);
                        }
                        lemma_place_is(after, other, k);
                    },
                    None => {
                        assert forall|j: int| 0 <= j < after.len() implies (#[trigger] after[j]).id
                            != other by {
                            assert(store[j].id != other);
                        }
                        lemma_no_place(after, other);
                    },
                }
            }
        },
        None => {
            assert forall|j: int| 0 <= j < store.len() implies (#[trigger] after[j]).id != c.id by {
                assert(store[j].id != c.id);
            }
            lemma_place_is(after, c.id, store.len() as int);
            if other != c.id {
                match place_of(store, other) {
                    Some(k) => {
                        assert forall|j: int| 0 <= j < k implies (#[trigger] after[j]).id != other by {
                            assert(store[j].id != other);
                        }
                        lemma_place_is(after, other, k);
                    },
                    None => {
                        assert forall|j: int| 0 <= j < after.len() implies (#[trigger] after[j]).id
                            != other by {
                            if j < store.len() {
                                assert(store[j].id != other);
                            }
                        }
                        lemma_no_place(after, other);
                    },
                }
            }
        },
    }
}

/// What was deleted is not loaded again.
pub proof fn law_deleted_checkpoint_is_gone(store: Seq<CheckpointView>, id: Seq<char>)
    ensures
        loaded(without_id(store, id), id) is None,
        loaded(store, id) is None ==> without_id(store, id) == store,
    decreases store.len(),
{
    lemma_without(store, id);
    lemma_no_place(without_id(store, id), id);
    lemma_place(store, id);
    if loaded(store, id) is None {
        lemma_nothing_to_delete(store, id);
    }
}

proof fn lemma_without(store: Seq<CheckpointView>, id: Seq<char>)
    ensures
        forall|j: int|
            0 <= j < without_id(store, id).len() ==> (#[trigger] without_id(store, id)[j]).id != id,
    decreases store.len(),
{
    if store.len() > 0 {
        lemma_without(store.drop_last(), id);
        let before = without_id(store.drop_last(), id);
        let all = without_id(store, id);
        assert forall|j: int| 0 <= j < all.len() implies (#[trigger] all[j]).id != id by {
            if j < before.len() {
                assert(all[j] == before[j]);
            }
        }
    }
}

proof fn lemma_nothing_to_delete(store: Seq<CheckpointView>, id: Seq<char>)
    requires
        forall|j: int| 0 <= j < store.len() ==> (#[trigger] store[j]).id != id,
    ensures
        without_id(store, id) == store,
    decreases store.len(),
{
    if store.len() > 0 {
        let rest = store.drop_last();
        assert forall|j: int| 0 <= j < rest.len() implies (#[trigger] rest[j]).id != id by {
            assert(store[j].id != id);
        }
        lemma_nothing_to_delete(rest, id);
        assert(store[store.len() - 1].id != id);
        assert(store =~= rest.push(store.last()));
    }
}

/// Clearing a session leaves nothing of it, and all of every other session.
pub proof fn law_clearing_spares_other_sessions(
    store: Seq<CheckpointView>,
    session_id: Seq<char>,
    other: Seq<char>,
)
    ensures
        of_session(of_session(store, session_id, false), session_id, true) == Seq::<
            CheckpointView,
        >::empty(),
        other != session_id ==> of_session(of_session(store, session_id, false), other, true)
            == of_session(store, other, true),
    decreases store.len(),
{
    if store.len() > 0 {
        let rest = store.drop_last();
        law_clearing_spares_other_sessions(rest, session_id, other);
        let before = of_session(rest, session_id, false);
        let all = of_session(store, session_id, false);
        if store.last().session_id != session_id {
            assert(all.drop_last() =~= before);
            assert(all.last() == store.last());
        }
    } else {
        assert(of_session(store, session_id, false) =~= Seq::<CheckpointView>::empty());
        assert(of_session(store, session_id, true) =~= Seq::<CheckpointView>::empty());
    }
}

// ---------------------------------------------------------------------------
// Laws of a store over time
// ---------------------------------------------------------------------------

/// A change of a store.
pub enum StoreChange {
    Save(CheckpointView),
    /// Delete the checkpoint with an ID.
    Delete(Seq<char>),
    /// Delete the checkpoints of a session.
    Clear(Seq<char>),
}

/// The change leaves the checkpoint `c` alone: it saves and deletes others, and
/// clears other sessions.
pub open spec fn spares(change: StoreChange, c: CheckpointView) -> bool {
    match change {
        StoreChange::Save(d) => d.id != c.id,
        StoreChange::Delete(id) => id != c.id,
        StoreChange::Clear(session_id) => session_id != c.session_id,
    }
}

/// All of the changes leave `c` alone.
pub open spec fn all_spare(changes: Seq<StoreChange>, c: CheckpointView) -> bool {
    forall|i: int| 0 <= i < changes.len() ==> spares(#[trigger] changes[i], c)
}

/// None of the changes saves a checkpoint with the given ID.
pub open spec fn none_saves(changes: Seq<StoreChange>, id: Seq<char>) -> bool {
    forall|i: int|
        0 <= i < changes.len() ==> (#[trigger] changes[i] matches StoreChange::Save(d) ==> d.id
            != id)
}

/// The in-memory store after a change.
pub open spec fn changed(store: Seq<CheckpointView>, change: StoreChange) -> Seq<CheckpointView> {
    match change {
        StoreChange::Save(c) => saved(store, c),
        StoreChange::Delete(id) => without_id(store, id),
        StoreChange::Clear(session_id) => of_session(store, session_id, false),
    }
}

/// The in-memory store after all of the changes.
pub open spec fn after_changes(
    store: Seq<CheckpointView>,
    changes: Seq<StoreChange>,
) -> Seq<CheckpointView>
    decreases changes.len(),
{
    if changes.len() == 0 {
        store
    } else {
        changed(after_changes(store, changes.drop_last()), changes.last())
    }
}

proof fn lemma_loaded_push(store: Seq<CheckpointView>, x: CheckpointView, id: Seq<char>)
    ensures
        loaded(store.push(x), id) == match loaded(store, id) {
            Some(c) => Some(c),
            None => if x.id == id {
                Some(x)
            } else {
                None
            },
        },
{
    let all = store.push(x);
    lemma_place(store, id);
    match place_of(store, id) {
        Some(i) => {
            assert forall|j: int| 0 <= j < i implies (#[trigger] all[j]).id != id by {
                assert(store[j].id != id);
            }
            lemma_place_is(all, id, i);
        },
        None => {
            assert forall|j: int| 0 <= j < store.len() implies (#[trigger] all[j]).id != id by {
                assert(store[j].id != id);
            }
            if x.id == id {
                lemma_place_is(all, id, store.len() as int);
            } else {
                lemma_no_place(all, id);
            }
        },
    }
}

proof fn lemma_deleting_spares(store: Seq<CheckpointView>, other: Seq<char>, id: Seq<char>)
    requires
        other != id,
    ensures
        loaded(without_id(store, other), id) == loaded(store, id),
    decreases store.len(),
{
    if store.len() > 0 {
        let rest = store.drop_last();
        lemma_deleting_spares(rest, other, id);
        assert(store =~= rest.push(store.last()));
        lemma_loaded_push(rest, store.last(), id);
        lemma_loaded_push(without_id(rest, other), store.last(), id);
    }
}

proof fn lemma_clearing(store: Seq<CheckpointView>, session_id: Seq<char>, id: Seq<char>)
    ensures
        match loaded(store, id) {
            None => loaded(of_session(store, session_id, false), id) is None,
            Some(c) => c.session_id != session_id ==> loaded(
                of_session(store, session_id, false),
                id,
            ) == Some(c),
        },
    decreases store.len(),
{
    if store.len() > 0 {
        let rest = store.drop_last();
        lemma_clearing(rest, session_id, id);
        assert(store =~= rest.push(store.last()));
        lemma_loaded_push(rest, store.last(), id);
        lemma_loaded_push(of_session(rest, session_id, false), store.last(), id);
    } else {
        assert(of_session(store, session_id, false) =~= store);
    }
}

/// What was saved is loaded again after any changes that leave it alone.
pub proof fn law_saved_checkpoint_survives_other_changes(
    store: Seq<CheckpointView>,
    c: CheckpointView,
    changes: Seq<StoreChange>,
)
    requires
        all_spare(changes, c),
    ensures
        loaded(after_changes(saved(store, c), changes), c.id) == Some(c),
    decreases changes.len(),
{
    law_load_gives_back_what_was_saved(store, c, c.id);
    if changes.len() > 0 {
        let earlier = changes.drop_last();
        assert forall|i: int| 0 <= i < earlier.len() implies spares(#[trigger] earlier[i], c) by {
            assert(spares(changes[i], c));
        }
        law_saved_checkpoint_survives_other_changes(store, c, earlier);
        let before = after_changes(saved(store, c), earlier);
        assert(spares(changes[changes.len() - 1], c));
        match changes.last() {
            StoreChange::Save(d) => {
                law_load_gives_back_what_was_saved(before, d, c.id);
            },
            StoreChange::Delete(id) => {
                lemma_deleting_spares(before, id, c.id);
            },
            StoreChange::Clear(session_id) => {
                lemma_clearing(before, session_id, c.id);
            },
        }
    }
}

/// An ID that was deleted, or never saved, is not loaded until it is saved.
pub proof fn law_unsaved_checkpoint_is_not_loaded(
    store: Seq<CheckpointView>,
    id: Seq<char>,
    changes: Seq<StoreChange>,
)
    requires
        none_saves(changes, id),
    ensures
        loaded(after_changes(without_id(store, id), changes), id) is None,
        loaded(store, id) is None ==> loaded(after_changes(store, changes), id) is None,
{
    law_deleted_checkpoint_is_gone(store, id);
    lemma_stays_away(without_id(store, id), id, changes);
    if loaded(store, id) is None {
        lemma_stays_away(store, id, changes);
    }
}

proof fn lemma_stays_away(
    store: Seq<CheckpointView>,
    id: Seq<char>,
    changes: Seq<StoreChange>,
)
    requires
        loaded(store, id) is None,
        none_saves(changes, id),
    ensures
        loaded(after_changes(store, changes), id) is None,
    decreases changes.len(),
{
    if changes.len() > 0 {
        let earlier = changes.drop_last();
        assert forall|i: int|
            0 <= i < earlier.len() implies (#[trigger] earlier[i] matches StoreChange::Save(d)
            ==> d.id != id) by {
            assert(earlier[i] == changes[i]);
        }
        lemma_stays_away(store, id, earlier);
        let before = after_changes(store, earlier);
        assert(changes.last() == changes[changes.len() - 1]);
        match changes.last() {
            StoreChange::Save(d) => {
                law_load_gives_back_what_was_saved(before, d, id);
            },
            StoreChange::Delete(other) => {
                law_deleted_checkpoint_is_gone(before, id);
                if other != id {
                    lemma_deleting_spares(before, other, id);
                }
            },
            StoreChange::Clear(session_id) => {
                lemma_clearing(before, session_id, id);
            },
        }
    }
}

/// A table of rows with their histories, told apart by their IDs.
pub type RowTable = Map<Seq<char>, (RowView, Seq<MessageView>)>;

/// The table after a change. A row takes the place of the one with its ID.
pub open spec fn rows_changed(rows: RowTable, change: StoreChange) -> RowTable {
    match change {
        StoreChange::Save(c) => rows.insert(c.id, (row_of(c), c.history)),
        StoreChange::Delete(id) => rows.remove(id),
        StoreChange::Clear(session_id) => Map::new(
            |id: Seq<char>| rows.contains_key(id) && rows[id].0.session_id != session_id,
            |id: Seq<char>| rows[id],
        ),
    }
}

/// The table after all of the changes.
pub open spec fn rows_after(rows: RowTable, changes: Seq<StoreChange>) -> RowTable
    decreases changes.len(),
{
    if changes.len() == 0 {
        rows
    } else {
        rows_changed(rows_after(rows, changes.drop_last()), changes.last())
    }
}

/// The checkpoint in the row with an ID; none where there is no such row.
pub open spec fn row_loaded(rows: RowTable, id: Seq<char>) -> Option<CheckpointView> {
    if rows.contains_key(id) {
        row_checkpoint(rows[id].0, rows[id].1)
    } else {
        None
    }
}

/// A checkpoint that was saved as a row comes back from it after any changes
/// that leave it alone, where its metadata come back from their text.
pub proof fn law_stored_checkpoint_comes_back(
    rows: RowTable,
    c: CheckpointView,
    changes: Seq<StoreChange>,
)
    requires
        metadata_reads_back(c),
        all_spare(changes, c),
    ensures
        row_loaded(rows_after(rows_changed(rows, StoreChange::Save(c)), changes), c.id) == Some(c),
{
    lemma_row_is_kept(rows_changed(rows, StoreChange::Save(c)), c, changes);
}

proof fn lemma_row_is_kept(rows: RowTable, c: CheckpointView, changes: Seq<StoreChange>)
    requires
        rows.contains_key(c.id),
        rows[c.id] == (row_of(c), c.history),
        all_spare(changes, c),
    ensures
        rows_after(rows, changes).contains_key(c.id),
        rows_after(rows, changes)[c.id] == (row_of(c), c.history),
    decreases changes.len(),
{
    if changes.len() > 0 {
        let earlier = changes.drop_last();
        assert forall|i: int| 0 <= i < earlier.len() implies spares(#[trigger] earlier[i], c) by {
            assert(spares(changes[i], c));
        }
        lemma_row_is_kept(rows, c, earlier);
        assert(spares(changes[changes.len() - 1], c));
    }
}

/// An ID that was deleted, or never saved, is not found until it is saved.
pub proof fn law_unsaved_row_is_not_found(
    rows: RowTable,
    id: Seq<char>,
    changes: Seq<StoreChange>,
)
    requires
        none_saves(changes, id),
    ensures
        row_loaded(rows_after(rows_changed(rows, StoreChange::Delete(id)), changes), id) is None,
        !rows.contains_key(id) ==> row_loaded(rows_after(rows, changes), id) is None,
{
    lemma_row_stays_away(rows_changed(rows, StoreChange::Delete(id)), id, changes);
    if !rows.contains_key(id) {
        lemma_row_stays_away(rows, id, changes);
    }
}

proof fn lemma_row_stays_away(rows: RowTable, id: Seq<char>, changes: Seq<StoreChange>)
    requires
        !rows.contains_key(id),
        none_saves(changes, id),
    ensures
        !rows_after(rows, changes).contains_key(id),
    decreases changes.len(),
{
    if changes.len() > 0 {
        let earlier = changes.drop_last();
        assert forall|i: int|
            0 <= i < earlier.len() implies (#[trigger] earlier[i] matches StoreChange::Save(d)
            ==> d.id != id) by {
            assert(earlier[i] == changes[i]);
        }
        lemma_row_stays_away(rows, id, earlier);
        assert(changes.last() == changes[changes.len() - 1]);
    }
}

// ---------------------------------------------------------------------------
// Laws of single steps
// ---------------------------------------------------------------------------

/// A checkpoint holds each thing that it was made of, and counts the messages.
pub proof fn law_checkpoints_hold_what_they_are_made_of(
    id: Seq<char>,
    created_at: Seq<char>,
    session_id: Seq<char>,
    label: Option<Seq<char>>,
    history: Seq<MessageView>,
    metadata: Option<JsonView>,
)
    requires
        history.len() <= usize::MAX,
    ensures
        ({
            let c = checkpoint_of(id, created_at, session_id, label, history, metadata);
            &&& c.id == id
            &&& c.created_at == created_at
            &&& c.session_id == session_id
            &&& c.label == label
            &&& c.history == history
            &&& c.turn_count == history.len()
            &&& c.metadata == metadata
        }),
{
}

/// Saving keeps the order of the store and the IDs in it; it grows by one where
/// the ID is new.
pub proof fn law_saving_keeps_the_order(store: Seq<CheckpointView>, c: CheckpointView, i: int)
    requires
        0 <= i < store.len(),
    ensures
        saved(store, c)[i].id == store[i].id,
        store[i].id != c.id ==> saved(store, c)[i] == store[i],
        (exists|k: int| 0 <= k < store.len() && (#[trigger] store[k]).id == c.id)
            ==> saved(store, c).len() == store.len(),
        (forall|k: int| 0 <= k < store.len() ==> (#[trigger] store[k]).id != c.id)
            ==> saved(store, c) == store.push(c),
{
    lemma_place(store, c.id);
}

/// The store without an ID is all that has another, the checkpoints of a session
/// are all that name it, and those outside are all others; each in the order in
/// which they stand.
pub proof fn law_checkpoints_are_picked_in_order(
    store: Seq<CheckpointView>,
    id: Seq<char>,
    session_id: Seq<char>,
)
    ensures
        without_id(store, id) == store.filter(|c: CheckpointView| c.id != id),
        of_session(store, session_id, true) == store.filter(
            |c: CheckpointView| c.session_id == session_id,
        ),
        of_session(store, session_id, false) == store.filter(
            |c: CheckpointView| c.session_id != session_id,
        ),
    decreases store.len(),
{
    reveal(Seq::filter);
    if store.len() > 0 {
        law_checkpoints_are_picked_in_order(store.drop_last(), id, session_id);
    }
}

/// A list of checkpoints from the newest to the oldest holds each of those that
/// were found and no other, and none in it is newer than one before it.
pub proof fn law_newer_checkpoints_come_first(
    found: Seq<CheckpointView>,
    sorted: Seq<CheckpointView>,
)
    requires
        newest_first(found, sorted),
    ensures
        sorted.len() == found.len(),
        forall|c: CheckpointView| #[trigger] sorted.contains(c) <==> found.contains(c),
        forall|k: int, m: int|
            0 <= k < m < sorted.len() ==> !text::precedes(
                (#[trigger] sorted[k]).created_at,
                (#[trigger] sorted[m]).created_at,
            ),
{
    let n = found.len() as int;
    let places = choose|places: Seq<usize>| #[trigger]
        sorting::is_arrangement(places, n) && lists_newest_first(found, sorted, places);
    assert forall|c: CheckpointView| #[trigger] sorted.contains(c) <==> found.contains(c) by {
        if sorted.contains(c) {
            let k = choose|k: int| 0 <= k < sorted.len() && sorted[k] == c;
            assert(found[places[k] as int] == c);
        }
        if found.contains(c) {
            let i = choose|i: int| 0 <= i < found.len() && found[i] == c;
            if i <= usize::MAX {
                sorting::lemma_arrangement_full(places, n, i as usize);
                let k = choose|k: int| 0 <= k < places.len() && places[k] == i as usize;
                assert(sorted[k] == c);
            } else {
                lemma_arrangement_is_short(places, n);
            }
        }
    }
    assert forall|k: int, m: int| 0 <= k < m < sorted.len() implies !text::precedes(
        (#[trigger] sorted[k]).created_at,
        (#[trigger] sorted[m]).created_at,
    ) by {
        text::lemma_precedes_total(sorted[k].created_at, sorted[m].created_at);
    }
}

proof fn lemma_arrangement_is_short(places: Seq<usize>, n: int)
    requires
        sorting::is_arrangement(places, n),
    ensures
        n <= usize::MAX + 1,
{
    let numbers = places.map_values(|p: usize| p as int);
    assert(numbers.no_duplicates()) by {
        assert forall|i: int, j: int|
            0 <= i < numbers.len() && 0 <= j < numbers.len() && i != j implies numbers[i]
            != numbers[j] by {
            assert(places[i] != places[j]);
        }
    }
    let all = vstd::set_lib::set_int_range(0, usize::MAX + 1);
    vstd::set_lib::lemma_int_range(0, usize::MAX + 1);
    numbers.unique_seq_to_set();
    assert(numbers.to_set().subset_of(all));
    vstd::set_lib::lemma_len_subset(numbers.to_set(), all);
}

/// A row says what the checkpoint says, with the metadata as text; and what a row
/// says, the checkpoint made of it says, unless the metadata are not JSON.
pub proof fn law_rows_say_what_checkpoints_say(
    c: CheckpointView,
    row: RowView,
    history: Seq<MessageView>,
)
    ensures
        row_of(c).id == c.id && row_of(c).session_id == c.session_id && row_of(c).label == c.label
            && row_of(c).turn_count == c.turn_count && row_of(c).created_at == c.created_at,
        c.metadata is None <==> row_of(c).metadata is None,
        c.metadata is Some ==> row_of(c).metadata == Some(json::json_text(c.metadata->0)),
        row_checkpoint(row, history) is None <==> row.metadata is Some && json::json_parse(
            row.metadata->0,
        ) is None,
        row_checkpoint(row, history) is Some ==> {
            let d = row_checkpoint(row, history)->0;
            &&& d.id == row.id
            &&& d.session_id == row.session_id
            &&& d.label == row.label
            &&& d.turn_count == row.turn_count
            &&& d.created_at == row.created_at
            &&& d.history == history
            &&& row.metadata is None <==> d.metadata is None
            &&& row.metadata is Some ==> json::json_parse(row.metadata->0) == d.metadata
        },
{
}

} // verus!
