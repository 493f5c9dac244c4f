//! Decisions of the development server: which file events call for a rebuild,
//! when clients are told, and the messages of the live-reload channel.

use vstd::prelude::*;
use vstd::string::*;
use workflow_core::id::Id;
use crate::sink::{distinct_names, has_name};

verus! {

/// The views of a sequence of strings.
pub open spec fn views(v: Seq<String>) -> Seq<Seq<char>> {
    v.map_values(|s: String| s@)
}

/// Last seen content hash of each watched file, by path.
pub struct ContentHashes {
    keys: Vec<String>,
    hashes: Vec<u64>,
}

impl View for ContentHashes {
    type V = Map<Seq<char>, u64>;

    closed spec fn view(&self) -> Map<Seq<char>, u64> {
        Map::new(
            |p: Seq<char>| has_name(self.keys@, p),
            |p: Seq<char>| self.hashes@[choose|i: int| 0 <= i < self.keys@.len() && #[trigger] self.keys@[i]@ == p],
        )
    }
}

impl ContentHashes {
    /// Keys are distinct and each has its hash.
    pub closed spec fn wf(&self) -> bool {
        self.keys@.len() == self.hashes@.len() && distinct_names(self.keys@)
    }

    proof fn lemma_lookup(&self, i: int)
        requires
            self.wf(),
            0 <= i < self.keys@.len(),
        ensures
            self@.contains_key(self.keys@[i]@),
            self@[self.keys@[i]@] == self.hashes@[i],
    {
        let p = self.keys@[i]@;
        assert(has_name(self.keys@, p));
        let j = choose|j: int| 0 <= j < self.keys@.len() && #[trigger] self.keys@[j]@ == p;
        assert(j == i);
    }

    pub fn new() -> (r: ContentHashes)
        ensures
            r.wf(),
            r@ == Map::<Seq<char>, u64>::empty(),
    {
        let r = ContentHashes { keys: Vec::new(), hashes: Vec::new() };
        assert(r@ =~= Map::<Seq<char>, u64>::empty());
        r
    }

    /// Record `hash` for `path`; returns the hash recorded before, if any.
    pub fn insert(&mut self, path: &str, hash: u64) -> (r: Option<u64>)
        requires
            old(self).wf(),
        ensures
            final(self).wf(),
            r == (if old(self)@.contains_key(path@) {
                Some(old(self)@[path@])
            } else {
                None
            }),
            final(self)@ == old(self)@.insert(path@, hash),
    {
        let ghost before = *self;
        let mut i: usize = 0;
        while i < self.keys.len()
            invariant
                i <= self.keys@.len(),
                *self == before,
                before == *old(self),
                before.wf(),
                forall|k: int| 0 <= k < i ==> #[trigger] self.keys@[k]@ != path@,
            decreases self.keys@.len() - i,
        {
            if self.keys[i].as_str().unicode_len() == path.unicode_len() && same_text(
                self.keys[i].as_str(),
                path,
            ) {
                proof {
                    before.lemma_lookup(i as int);
                    assert(self.keys@[i as int]@ == path@);
                    assert(before == *old(self));
                }
                let prev = self.hashes[i];
                self.hashes.set(i, hash);
                proof {
                    assert forall|p: Seq<char>| #[trigger]
                        self@.contains_key(p) <==> before@.insert(path@, hash).contains_key(p) by {
                        assert(self.keys@ == before.keys@);
                    }
                    assert forall|p: Seq<char>| #[trigger]
                        self@.contains_key(p) implies self@[p] == before@.insert(path@, hash)[p] by {
                        let j = choose|j: int| 0 <= j < self.keys@.len() && #[trigger] self.keys@[j]@ == p;
                        self.lemma_lookup(j);
                        if j != i {
                            before.lemma_lookup(j);
                        }
                    }
                    assert(self@ =~= before@.insert(path@, hash));
                }
                return Some(prev);
            }
            i = i + 1;
        }
        proof {
            assert(!has_name(before.keys@, path@));
        }
        self.keys.push(path.to_string());
        self.hashes.push(hash);
        proof {
            crate::sink::lemma_push_name(before.keys@, self.keys@[before.keys@.len() as int]);
            assert(self.keys@ == before.keys@.push(self.keys@[before.keys@.len() as int]));
            assert forall|p: Seq<char>| #[trigger]
                self@.contains_key(p) implies self@[p] == before@.insert(path@, hash)[p] by {
                let j = choose|j: int| 0 <= j < self.keys@.len() && #[trigger] self.keys@[j]@ == p;
                self.lemma_lookup(j);
                if j < before.keys@.len() {
                    before.lemma_lookup(j);
                }
            }
            assert forall|p: Seq<char>| #[trigger]
                self@.contains_key(p) <==> before@.insert(path@, hash).contains_key(p) by {
                if p == path@ {
                    assert(self.keys@[before.keys@.len() as int]@ == p);
                }
                if before@.contains_key(p) {
                    let j = choose|j: int| 0 <= j < before.keys@.len() && #[trigger] before.keys@[j]@ == p;
                    assert(self.keys@[j]@ == p);
                }
            }
            assert(self@ =~= before@.insert(path@, hash));
        }
        None
    }
}

/// Whether two strings of equal length hold the same characters.
fn same_text(a: &str, b: &str) -> (r: bool)
    requires
        a@.len() == b@.len(),
    ensures
        r == (a@ == b@),
{
    let n = a.unicode_len();
    let mut i: usize = 0;
    while i < n
        invariant
            i <= n,
            n == a@.len(),
            n == b@.len(),
            forall|k: int| 0 <= k < i ==> a@[k] == b@[k],
        decreases n - i,
    {
        if a.get_char(i) != b.get_char(i) {
            return false;
        }
        i = i + 1;
    }
    assert(a@ =~= b@);
    true
}

/// The marker that roots a changed path at the template folder.
pub open spec fn templates_marker() -> Seq<char> {
    seq!['t', 'e', 'm', 'p', 'l', 'a', 't', 'e', 's', '/']
}

/// The marker occurs in `p` at `i`.
pub open spec fn marker_at(p: Seq<char>, i: int) -> bool {
    0 <= i && i + 10 <= p.len() && p.subrange(i, i + 10) == templates_marker()
}

/// How a changed path is reported: unchanged when it holds no `templates/`,
/// the part after it when it holds exactly one, and not at all otherwise.
pub open spec fn rooted_change(p: Seq<char>) -> Option<Seq<char>> {
    if !(exists|i: int| #[trigger] marker_at(p, i)) {
        Some(p)
    } else {
        let i = choose|i: int| #[trigger] marker_at(p, i);
        if forall|j: int| #[trigger] marker_at(p, j) ==> j == i {
            Some(p.subrange(i + 10, p.len() as int))
        } else {
            None
        }
    }
}

fn marker_at_exec(p: &str, i: usize, len: usize) -> (r: bool)
    requires
        len == p@.len(),
        i + 10 <= len,
    ensures
        r == marker_at(p@, i as int),
{
    let r = p.get_char(i) == 't' && p.get_char(i + 1) == 'e' && p.get_char(i + 2) == 'm'
        && p.get_char(i + 3) == 'p' && p.get_char(i + 4) == 'l' && p.get_char(i + 5) == 'a'
        && p.get_char(i + 6) == 't' && p.get_char(i + 7) == 'e' && p.get_char(i + 8) == 's'
        && p.get_char(i + 9) == '/';
    if r {
        assert(p@.subrange(i as int, i + 10) =~= templates_marker());
    } else {
        proof {
        if p@.subrange(i as int, i + 10) == templates_marker() {
            assert(p@[i + 0] == p@.subrange(i as int, i + 10)[0]);
            assert(p@[i + 1] == p@.subrange(i as int, i + 10)[1]);
            assert(p@[i + 2] == p@.subrange(i as int, i + 10)[2]);
            assert(p@[i + 3] == p@.subrange(i as int, i + 10)[3]);
            assert(p@[i + 4] == p@.subrange(i as int, i + 10)[4]);
            assert(p@[i + 5] == p@.subrange(i as int, i + 10)[5]);
            assert(p@[i + 6] == p@.subrange(i as int, i + 10)[6]);
            assert(p@[i + 7] == p@.subrange(i as int, i + 10)[7]);
            assert(p@[i + 8] == p@.subrange(i as int, i + 10)[8]);
            assert(p@[i + 9] == p@.subrange(i as int, i + 10)[9]);
        }
        }
    }
    r
}

/// The path of a change as clients see it (see `rooted_change`).
pub fn template_rooted(path: &str) -> (r: Option<String>)
    ensures
        match r {
            Some(s) => rooted_change(path@) == Some(s@),
            None => rooted_change(path@) is None,
        },
{
    let len = path.unicode_len();
    let mut first: Option<usize> = None;
    let mut i: usize = 0;
    while len >= 10 && i <= len - 10
        invariant
            len == path@.len(),
            i <= len,
            match first {
                None => forall|j: int| 0 <= j < i ==> !#[trigger] marker_at(path@, j),
                Some(f) => f < i && marker_at(path@, f as int) && forall|j: int|
                    0 <= j < i && #[trigger] marker_at(path@, j) ==> j == f,
            },
        decreases len - i,
    {
        if marker_at_exec(path, i, len) {
            match first {
                None => {
                    first = Some(i);
                },
                Some(f) => {
                    assert(marker_at(path@, f as int) && marker_at(path@, i as int) && f != i);
                    return None;
                },
            }
        }
        i = i + 1;
    }
    assert forall|j: int| i <= j implies !#[trigger] marker_at(path@, j) by {}
    match first {
        None => {
            Some(path.to_string())
        },
        Some(f) => {
            assert(marker_at(path@, f as int));
            Some(path.substring_char(f + 10, len).to_string())
        },
    }
}

/// A watched file reported by the watcher: its path relative to the project
/// folder, and the hash of its content, or `None` when it could not be read.
pub struct FileChange {
    pub path: String,
    pub hash: Option<u64>,
}

/// The hash table and the reported paths after the first `n` changes of a batch.
pub open spec fn fold_changes(t: Map<Seq<char>, u64>, b: Seq<FileChange>, n: int) -> (Map<
    Seq<char>,
    u64,
>, Seq<Seq<char>>)
    decreases n,
{
    if n <= 0 || n > b.len() {
        (t, Seq::empty())
    } else {
        let (t1, out) = fold_changes(t, b, n - 1);
        let c = b[n - 1];
        match c.hash {
            None => (t1, out),
            Some(h) => {
                let t2 = t1.insert(c.path@, h);
                if t1.contains_key(c.path@) && t1[c.path@] == h {
                    (t2, out)
                } else {
                    match rooted_change(c.path@) {
                        Some(q) => (t2, out.push(q)),
                        None => (t2, out),
                    }
                }
            },
        }
    }
}

/// Record the hashes of a batch and return the paths whose content changed,
/// in the order they came, as clients see them.
pub fn changed_paths(hashes: &mut ContentHashes, batch: &Vec<FileChange>) -> (r: Vec<String>)
    requires
        old(hashes).wf(),
    ensures
        final(hashes).wf(),
        final(hashes)@ == fold_changes(old(hashes)@, batch@, batch@.len() as int).0,
        views(r@) == fold_changes(old(hashes)@, batch@, batch@.len() as int).1,
{
    let ghost t0 = hashes@;
    let mut out: Vec<String> = Vec::new();
    let mut i: usize = 0;
    while i < batch.len()
        invariant
            i <= batch@.len(),
            t0 == old(hashes)@,
            hashes.wf(),
            hashes@ == fold_changes(t0, batch@, i as int).0,
            views(out@) == fold_changes(t0, batch@, i as int).1,
        decreases batch@.len() - i,
    {
        let c = &batch[i];
        match c.hash {
            None => {},
            Some(h) => {
                let prev = hashes.insert(c.path.as_str(), h);
                let same = match prev {
                    Some(p) => p == h,
                    None => false,
                };
                if !same {
                    match template_rooted(c.path.as_str()) {
                        Some(q) => {
                            let ghost before = out@;
                            out.push(q);
                            assert(views(out@) =~= views(before).push(q@));
                        },
                        None => {},
                    }
                }
            },
        }
        i = i + 1;
    }
    out
}

/// Where the rebuild loop stands.
pub enum Phase {
    Idle,
    /// A rebuild runs; the paths are those it was started for.
    Rebuilding(Vec<String>),
}

/// What the rebuild loop is told.
pub enum WatchEvent {
    /// A debounced batch of file events.
    Changes(Vec<FileChange>),
    /// The migration and the render pass both returned successfully.
    RebuildDone,
    /// The rebuild failed.
    RebuildFailed,
}

/// What the rebuild loop must do next.
pub enum WatchAction {
    Wait,
    /// Run a full rebuild, then report `RebuildDone` or `RebuildFailed`.
    Rebuild,
    /// Send an `update` for `files` to every client; when `rebuild` holds,
    /// start the next rebuild after that.
    Notify { files: Vec<String>, rebuild: bool },
}

/// State of the watch / rebuild loop.
pub struct Watcher {
    pub hashes: ContentHashes,
    pub phase: Phase,
    /// Changes seen while a rebuild ran, for the next one.
    pub queued: Vec<String>,
}

impl Watcher {
    pub fn new() -> (r: Watcher)
        ensures
            r.hashes.wf(),
            r.hashes@ == Map::<Seq<char>, u64>::empty(),
            r.phase is Idle,
            r.queued@.len() == 0,
    {
        Watcher { hashes: ContentHashes::new(), phase: Phase::Idle, queued: Vec::new() }
    }

    /// One step of the loop: `Idle` waits for changes that alter some file's
    /// content; a rebuild is announced to clients only once it is done.
    pub fn step(&mut self, event: WatchEvent) -> (r: WatchAction)
        requires
            old(self).hashes.wf(),
        ensures
            final(self).hashes.wf(),
            match event {
                WatchEvent::Changes(b) => {
                    let f = fold_changes(old(self).hashes@, b@, b@.len() as int);
                    &&& final(self).hashes@ == f.0
                    &&& match old(self).phase {
                        Phase::Idle => if f.1.len() == 0 {
                            r is Wait && final(self).phase is Idle && final(self).queued@
                                == old(self).queued@
                        } else {
                            r is Rebuild && final(self).queued@ == old(self).queued@
                                && final(self).phase is Rebuilding && views(
                                final(self).phase->Rebuilding_0@) == f.1
                        },
                        Phase::Rebuilding(fs) => r is Wait && final(self).phase == old(self).phase
                            && views(final(self).queued@) == views(old(self).queued@) + f.1,
                    }
                },
                WatchEvent::RebuildDone => {
                    &&& final(self).hashes@ == old(self).hashes@
                    &&& match old(self).phase {
                        Phase::Idle => r is Wait && final(self).phase is Idle && final(self).queued@
                            == old(self).queued@,
                        Phase::Rebuilding(fs) => (r matches WatchAction::Notify { files, rebuild }
                            && files@ == fs@ && rebuild == (old(self).queued@.len() > 0))
                            && final(self).queued@.len() == 0 && if old(self).queued@.len() > 0 {
                            final(self).phase == Phase::Rebuilding(old(self).queued)
                        } else {
                            final(self).phase is Idle
                        },
                    }
                },
                WatchEvent::RebuildFailed => {
                    &&& final(self).hashes@ == old(self).hashes@
                    &&& if old(self).phase is Rebuilding && old(self).queued@.len() > 0 {
                        r is Rebuild && final(self).phase == Phase::Rebuilding(old(self).queued)
                            && final(self).queued@.len() == 0
                    } else {
                        r is Wait && final(self).phase is Idle && final(self).queued@ == old(
                            self,
                        ).queued@
                    }
                },
            },
            r is Notify ==> event is RebuildDone && old(self).phase is Rebuilding,
    {
        let mut phase = Phase::Idle;
        std::mem::swap(&mut phase, &mut self.phase);
        match event {
            WatchEvent::Changes(batch) => {
                let files = changed_paths(&mut self.hashes, &batch);
                match phase {
                    Phase::Idle => {
                        if files.len() == 0 {
                            WatchAction::Wait
                        } else {
                            self.phase = Phase::Rebuilding(files);
                            WatchAction::Rebuild
                        }
                    },
                    Phase::Rebuilding(fs) => {
                        self.phase = Phase::Rebuilding(fs);
                        let ghost before = self.queued@;
                        let mut more = files;
                        self.queued.append(&mut more);
                        assert(views(self.queued@) =~= views(before) + views(files@));
                        WatchAction::Wait
                    },
                }
            },
            WatchEvent::RebuildDone => {
                match phase {
                    Phase::Idle => WatchAction::Wait,
                    Phase::Rebuilding(fs) => {
                        let mut queued: Vec<String> = Vec::new();
                        std::mem::swap(&mut queued, &mut self.queued);
                        let again = queued.len() > 0;
                        if again {
                            self.phase = Phase::Rebuilding(queued);
                        }
                        WatchAction::Notify { files: fs, rebuild: again }
                    },
                }
            },
            WatchEvent::RebuildFailed => {
                let was_rebuilding = match phase {
                    Phase::Rebuilding(_) => true,
                    Phase::Idle => false,
                };
                if was_rebuilding && self.queued.len() > 0 {
                    let mut queued: Vec<String> = Vec::new();
                    std::mem::swap(&mut queued, &mut self.queued);
                    self.phase = Phase::Rebuilding(queued);
                    WatchAction::Rebuild
                } else {
                    WatchAction::Wait
                }
            },
        }
    }
}

/// Identical content is no change: a batch in which every readable file
/// carries the hash already recorded for it reports nothing (so the loop
/// neither rebuilds nor notifies) and leaves the table as it was.
pub proof fn lemma_identical_content_ignored(t: Map<Seq<char>, u64>, b: Seq<FileChange>, n: int)
    requires
        0 <= n <= b.len(),
        forall|i: int|
            0 <= i < b.len() ==> match #[trigger] b[i].hash {
                None => true,
                Some(h) => t.contains_key(b[i].path@) && t[b[i].path@] == h,
            },
    ensures
        fold_changes(t, b, n).0 == t,
        fold_changes(t, b, n).1.len() == 0,
    decreases n,
{
    if n > 0 {
        lemma_identical_content_ignored(t, b, n - 1);
        let c = b[n - 1];
        if let Some(h) = c.hash {
            assert(t.insert(c.path@, h) =~= t);
        }
    }
}

/// A lower-case hexadecimal digit.
pub open spec fn hex_digit(n: int) -> char {
    seq!['0', '1', '2', '3', '4', '5', '6', '7', '8', '9', 'a', 'b', 'c', 'd', 'e', 'f'][n]
}

/// How serde_json writes one character inside a string: quote and backslash
/// escaped, the five short control escapes, other control characters as
/// `\u00XX`, anything else as it is.
pub open spec fn json_escape(c: char) -> Seq<char> {
    if c == '"' {
        seq!['\\', '"']
    } else if c == '\\' {
        seq!['\\', '\\']
    } else if c == '\u{8}' {
        seq!['\\', 'b']
    } else if c == '\t' {
        seq!['\\', 't']
    } else if c == '\n' {
        seq!['\\', 'n']
    } else if c == '\u{c}' {
        seq!['\\', 'f']
    } else if c == '\r' {
        seq!['\\', 'r']
    } else if (c as int) < 0x20 {
        seq!['\\', 'u', '0', '0', hex_digit((c as int) / 16), hex_digit((c as int) % 16)]
    } else {
        seq![c]
    }
}

/// The escaped characters of a string.
pub open spec fn json_escaped(s: Seq<char>) -> Seq<char>
    decreases s.len(),
{
    if s.len() == 0 {
        Seq::empty()
    } else {
        json_escaped(s.drop_last()) + json_escape(s.last())
    }
}

/// The JSON text of a string, as serde_json writes it.
pub open spec fn json_quoted(s: Seq<char>) -> Seq<char> {
    seq!['"'] + json_escaped(s) + seq!['"']
}

/// Relies on `serde_json::to_string` for a `str`: the string in quotes with
/// each character escaped by serde_json's table (writing into memory, it
/// cannot fail).
#[verifier::external_body]
fn json_string(s: &str) -> (r: String)
    ensures
        r@ == json_quoted(s@),
{
    serde_json::to_string(s).unwrap_or_default()
}

/// Relies on `workflow_core::id::Id::new` and its `Display`: a fresh random
/// identifier, the base58 text of 8 random bytes, which is never empty.
#[verifier::external_body]
fn new_id() -> (r: String)
    ensures
        r@.len() > 0,
{
    Id::new().to_string()
}

/// The comma-separated JSON strings of `items`.
pub open spec fn json_items(items: Seq<Seq<char>>) -> Seq<char>
    decreases items.len(),
{
    if items.len() == 0 {
        Seq::empty()
    } else if items.len() == 1 {
        json_quoted(items[0])
    } else {
        json_items(items.drop_last()) + ","@ + json_quoted(items.last())
    }
}

/// The JSON array of the strings `items`.
pub open spec fn json_list(items: Seq<Seq<char>>) -> Seq<char> {
    "["@ + json_items(items) + "]"@
}

/// A live-reload message: `{"id":..,"method":..,"params":..}`.
pub open spec fn notification_text(id: Seq<char>, method: Seq<char>, params: Seq<char>) -> Seq<
    char,
> {
    "{\"id\":"@ + json_quoted(id) + ",\"method\":"@ + json_quoted(method) + ",\"params\":"@
        + params + "}"@
}

/// The JSON array of `items`.
pub fn json_string_list(items: &Vec<String>) -> (r: String)
    ensures
        r@ == json_list(views(items@)),
{
    let mut acc = String::from_str("[");
    let ghost open_view = acc@;
    let mut i: usize = 0;
    while i < items.len()
        invariant
            i <= items@.len(),
            acc@ == open_view + json_items(views(items@).subrange(0, i as int)),
        decreases items@.len() - i,
    {
        let ghost prev = acc@;
        let ghost pre = views(items@).subrange(0, i as int);
        let ghost next = views(items@).subrange(0, i as int + 1);
        assert(next.drop_last() =~= pre);
        if i > 0 {
            acc.append(",");
        }
        let q = json_string(items[i].as_str());
        acc.append(q.as_str());
        proof {
            if i == 0 {
                assert(pre =~= Seq::<Seq<char>>::empty());
            }
            assert(acc@ =~= open_view + json_items(next));
        }
        i = i + 1;
    }
    assert(views(items@).subrange(0, items@.len() as int) =~= views(items@));
    acc.append("]");
    acc
}

/// A live-reload message with the given id, method and JSON parameters.
pub fn notification(id: &str, method: &str, params: &str) -> (r: String)
    ensures
        r@ == notification_text(id@, method@, params@),
{
    let mut r = String::from_str("{\"id\":");
    let q = json_string(id);
    r.append(q.as_str());
    r.append(",\"method\":");
    let m = json_string(method);
    r.append(m.as_str());
    r.append(",\"params\":");
    r.append(params);
    r.append("}");
    r
}

/// A message that carries `session` as its `session` parameter.
pub open spec fn session_text(m: Seq<char>, session: Seq<char>) -> bool {
    exists|id: Seq<char>| m == notification_text(id, "session"@, json_quoted(session))
}

/// A message that announces `files` as changed.
pub open spec fn update_text(m: Seq<char>, files: Seq<Seq<char>>) -> bool {
    exists|id: Seq<char>| m == notification_text(id, "update"@, json_list(files))
}

/// The live-reload channel's server side: one session id for the life of the process.
pub struct LiveReload {
    session: String,
}

impl LiveReload {
    /// The session id of this process.
    pub closed spec fn session(&self) -> Seq<char> {
        self.session@
    }

    /// A channel with a fresh random session id.
    pub fn new() -> (r: LiveReload)
        ensures
            r.session().len() > 0,
    {
        LiveReload { session: new_id() }
    }

    /// The session id, as sent to clients.
    pub fn session_id(&self) -> (r: String)
        ensures
            r@ == self.session(),
    {
        self.session.clone()
    }

    /// The `session` message with message id `id`.
    pub fn session_message_with_id(&self, id: &str) -> (r: String)
        ensures
            r@ == notification_text(id@, "session"@, json_quoted(self.session())),
    {
        let p = json_string(self.session.as_str());
        notification(id, "session", p.as_str())
    }

    /// The `session` message sent to a client when it connects.
    pub fn session_message(&self) -> (r: String)
        ensures
            session_text(r@, self.session()),
    {
        let id = new_id();
        self.session_message_with_id(id.as_str())
    }

    /// The `update` message with message id `id` for the changed `files`.
    pub fn update_message_with_id(id: &str, files: &Vec<String>) -> (r: String)
        ensures
            r@ == notification_text(id@, "update"@, json_list(views(files@))),
    {
        let p = json_string_list(files);
        notification(id, "update", p.as_str())
    }

    /// The `update` message sent after a rebuild for the changed `files`.
    pub fn update_message(files: &Vec<String>) -> (r: String)
        ensures
            update_text(r@, views(files@)),
    {
        let id = new_id();
        Self::update_message_with_id(id.as_str(), files)
    }
}

/// Session continuity: the `session` messages of one channel, whatever their
/// message ids, all carry the channel's one session id.
pub proof fn lemma_session_continuity(lr: LiveReload, id1: Seq<char>, id2: Seq<char>)
    ensures
        session_text(notification_text(id1, "session"@, json_quoted(lr.session())), lr.session()),
        session_text(notification_text(id2, "session"@, json_quoted(lr.session())), lr.session()),
{
}

/// Whether two texts are equal.
pub fn text_eq(a: &str, b: &str) -> (r: bool)
    ensures
        r == (a@ == b@),
{
    if a.unicode_len() != b.unicode_len() {
        return false;
    }
    same_text(a, b)
}

/// Some element of `languages` is `code`.
pub open spec fn listed_text(languages: Seq<String>, code: Seq<char>) -> bool {
    exists|i: int| 0 <= i < languages.len() && #[trigger] languages[i]@ == code
}

/// Whether `code` is an element of `languages`.
pub fn contains_text(languages: &Vec<String>, code: &str) -> (r: bool)
    ensures
        r == listed_text(languages@, code@),
{
    let mut i: usize = 0;
    while i < languages.len()
        invariant
            i <= languages@.len(),
            forall|j: int| 0 <= j < i ==> #[trigger] languages@[j]@ != code@,
        decreases languages@.len() - i,
    {
        if text_eq(languages[i].as_str(), code) {
            return true;
        }
        i = i + 1;
    }
    false
}

/// The locale whose index the site root serves: English when configured,
/// else the first configured locale; none without locales.
pub fn root_locale(languages: &Vec<String>) -> (r: Option<String>)
    ensures
        languages@.len() == 0 ==> r is None,
        languages@.len() > 0 && listed_text(languages@, "en"@) ==> (r matches Some(l) && l@ == "en"@),
        languages@.len() > 0 && !listed_text(languages@, "en"@) ==> (r matches Some(l) && l@
            == languages@[0]@),
{
    if languages.len() == 0 {
        None
    } else if contains_text(languages, "en") {
        Some(String::from_str("en"))
    } else {
        Some(languages[0].clone())
    }
}

/// The locale folder that serves a request whose path starts with segment
/// `first`: the segment itself when it is a configured locale.
pub fn request_locale(first: &str, languages: &Vec<String>) -> (r: Option<String>)
    ensures
        match r {
            Some(l) => listed_text(languages@, first@) && l@ == first@,
            None => !listed_text(languages@, first@),
        },
{
    if contains_text(languages, first) {
        Some(first.to_string())
    } else {
        None
    }
}

/// The routes of a locale's index page: `/{locale}` and `/{locale}/`, both
/// serving `{locale}/index.html` under the site folder.
pub fn locale_routes(locale: &str) -> (r: (String, String, String))
    ensures
        r.0@ == "/"@ + locale@,
        r.1@ == "/"@ + locale@ + "/"@,
        r.2@ == locale@ + "/index.html"@,
{
    let mut bare = String::from_str("/");
    bare.append(locale);
    let mut slashed = String::from_str("/");
    slashed.append(locale);
    slashed.append("/");
    let mut index = String::from_str(locale);
    index.append("/index.html");
    (bare, slashed, index)
}

/// Where the body of a custom error page comes from.
pub enum ErrorPage {
    /// An `.html` file, relative to the locale's site folder.
    File(String),
    /// The configured text itself.
    Inline(String),
    /// The built-in page.
    Builtin,
}

/// The error page for a configured setting: a path ending in `.html` names a
/// file, other text is the page itself, and without a setting the built-in
/// page is used.
pub fn error_page(configured: &Option<String>) -> (r: ErrorPage)
    ensures
        match configured {
            None => r is Builtin,
            Some(c) => if crate::text::ends_with(c@, ".html"@) {
                r matches ErrorPage::File(f) && f@ == c@
            } else {
                r matches ErrorPage::Inline(t) && t@ == c@
            },
        },
{
    match configured {
        None => ErrorPage::Builtin,
        Some(c) => {
            if crate::text::ends_with_exec(c.as_str(), ".html") {
                ErrorPage::File(c.clone())
            } else {
                ErrorPage::Inline(c.clone())
            }
        },
    }
}

} // verus!
