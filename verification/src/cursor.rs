//! Cursors into logs.
use vstd::prelude::*;
use vstd::string::*;
use crate::log_lines::{all_lines, is_batch, LogLine, LogQueue};
use crate::name_map::NameMap;
use crate::number::{format_hex, hexadecimal, lemma_hexadecimal_differs};
use crate::shelf::{KeepRule, Shelf};
use crate::text::{concat, concat5, quote, quoted, same};

verus! {

/// What goes wrong with a cursor.
#[derive(Debug)]
pub enum CursorError {
    /// There is no such cursor, or no longer.
    CursorExpired(String),
    /// The cursor is into the logs of another configuration.
    CursorConfigMismatch { cursor_config: String, requested_config: String },
    /// Reading failed.
    IoError(String),
}

impl CursorError {
    /// The message.
    pub open spec fn text(self) -> Seq<char> {
        match self {
            CursorError::CursorExpired(id) => "Cursor expired or invalid: "@ + id@,
            CursorError::CursorConfigMismatch { cursor_config, requested_config } =>
                "Cursor belongs to config "@ + quoted(cursor_config@) + ", not "@ + quoted(
                requested_config@,
            ),
            CursorError::IoError(e) => "IO error: "@ + e@,
        }
    }

    /// The message.
    pub fn message(&self) -> (r: String)
        ensures
            r@ == self.text(),
    {
        match self {
            CursorError::CursorExpired(id) => concat("Cursor expired or invalid: ", id.as_str()),
            CursorError::CursorConfigMismatch { cursor_config, requested_config } => {
                let one = quote(cursor_config.as_str());
                let two = quote(requested_config.as_str());
                let r = concat5(
                    "Cursor belongs to config ",
                    one.as_str(),
                    ", not ",
                    two.as_str(),
                    "",
                );
                proof {
                    reveal_strlit("");
                    assert(r@ == self.text());
                }
                r
            },
            CursorError::IoError(e) => concat("IO error: ", e.as_str()),
        }
    }
}

/// The name of the cursor with a number.
pub open spec fn cursor_name(n: u64) -> Seq<char> {
    "cursor_"@ + hexadecimal(n as nat)
}

/// Keeps track of cursors: which configuration each belongs to, over which connection it was
/// opened, and when it was last used. Times are in milliseconds.
pub struct CursorManager {
    cursors: Shelf,
    /// How long a cursor stays that is not used.
    ttl: u64,
    next: u64,
}

impl CursorManager {
    /// The cursors by name: configuration, connection and time of last use.
    pub closed spec fn cursors(self) -> Map<Seq<char>, (Seq<char>, u64, u64)> {
        self.cursors@
    }

    /// How long a cursor stays that is not used.
    pub closed spec fn ttl(self) -> u64 {
        self.ttl
    }

    /// The number of the next cursor.
    pub closed spec fn next(self) -> u64 {
        self.next
    }

    /// No cursors; one that is not used stays for the given number of seconds, as far as
    /// milliseconds can count them.
    pub fn new(ttl_seconds: u64) -> (r: Self)
        ensures
            r.cursors() == Map::<Seq<char>, (Seq<char>, u64, u64)>::empty(),
            r.ttl() == if ttl_seconds * 1000 <= u64::MAX {
                (ttl_seconds * 1000) as u64
            } else {
                u64::MAX
            },
            r.next() == 0,
    {
        let ttl: u64 = match ttl_seconds.checked_mul(1000) {
            Some(t) => t,
            None => u64::MAX,
        };
        CursorManager { cursors: Shelf::new(), ttl, next: 0 }
    }

    /// Opens a cursor and gives its name.
    pub fn create_cursor(&mut self, config_path: String, connection_id: u64, now: u64) -> (r: String)
        ensures
            r@ == cursor_name(old(self).next()),
            final(self).cursors() == old(self).cursors().insert(
                r@,
                (config_path@, connection_id, now),
            ),
            final(self).ttl() == old(self).ttl(),
            final(self).next() == (if old(self).next() == u64::MAX {
                0
            } else {
                (old(self).next() + 1) as u64
            }),
    {
        let id = concat("cursor_", format_hex(self.next).as_str());
        self.cursors.insert(id.clone(), config_path, connection_id, now);
        self.next = self.next.wrapping_add(1);
        id
    }

    /// Notes the use of a cursor into the logs of a configuration. It fails if there is no such
    /// cursor, or if it belongs to another configuration.
    pub fn touch(&mut self, cursor_id: &str, config_path: &str, now: u64) -> (r: Result<
        (),
        CursorError,
    >)
        ensures
            final(self).ttl() == old(self).ttl(),
            final(self).next() == old(self).next(),
            match r {
                Ok(_) => {
                    let record = old(self).cursors()[cursor_id@];
                    &&& old(self).cursors().contains_key(cursor_id@)
                    &&& record.0 == config_path@
                    &&& final(self).cursors() == old(self).cursors().insert(
                        cursor_id@,
                        (record.0, record.1, now),
                    )
                },
                Err(CursorError::CursorExpired(id)) => {
                    &&& !old(self).cursors().contains_key(cursor_id@)
                    &&& id@ == cursor_id@
                    &&& final(self).cursors() == old(self).cursors()
                },
                Err(CursorError::CursorConfigMismatch { cursor_config, requested_config }) => {
                    &&& old(self).cursors().contains_key(cursor_id@)
                    &&& cursor_config@ == old(self).cursors()[cursor_id@].0
                    &&& cursor_config@ != config_path@
                    &&& requested_config@ == config_path@
                    &&& final(self).cursors() == old(self).cursors()
                },
                Err(CursorError::IoError(_)) => false,
            },
    {
        let (config, connection, _last) = match self.cursors.get(cursor_id) {
            Some(record) => record,
            None => {
                return Err(CursorError::CursorExpired(cursor_id.to_owned()));
            },
        };
        if !same(config.as_str(), config_path) {
            return Err(
                CursorError::CursorConfigMismatch {
                    cursor_config: config,
                    requested_config: config_path.to_owned(),
                },
            );
        }
        self.cursors.insert(cursor_id.to_owned(), config, connection, now);
        Ok(())
    }

    /// Reads the next batch of lines through a cursor into the logs of a configuration, given the
    /// lines that it has not read yet, and tells whether there are more. It fails if there is no
    /// such cursor, or if it belongs to another configuration.
    pub fn read_entries(
        &mut self,
        cursor_id: &str,
        config_path: &str,
        now: u64,
        queue: &mut LogQueue,
        limits: &BatchLimits,
    ) -> (r: Result<(Vec<LogLine>, bool), CursorError>)
        ensures
            final(self).ttl() == old(self).ttl(),
            final(self).next() == old(self).next(),
            match r {
                Ok((batch, more)) => {
                    let record = old(self).cursors()[cursor_id@];
                    let all = all_lines(old(queue).logs());
                    &&& old(self).cursors().contains_key(cursor_id@)
                    &&& record.0 == config_path@
                    &&& final(self).cursors() == old(self).cursors().insert(
                        cursor_id@,
                        (record.0, record.1, now),
                    )
                    &&& is_batch(all, *limits, batch@.len())
                    &&& batch@ == all.take(batch@.len() as int)
                    &&& all_lines(final(queue).logs()) == all.skip(batch@.len() as int)
                    &&& more == (batch@.len() < all.len())
                },
                Err(CursorError::CursorExpired(id)) => {
                    &&& !old(self).cursors().contains_key(cursor_id@)
                    &&& id@ == cursor_id@
                    &&& final(self).cursors() == old(self).cursors()
                    &&& *final(queue) == *old(queue)
                },
                Err(CursorError::CursorConfigMismatch { cursor_config, requested_config }) => {
                    &&& old(self).cursors().contains_key(cursor_id@)
                    &&& cursor_config@ == old(self).cursors()[cursor_id@].0
                    &&& cursor_config@ != config_path@
                    &&& requested_config@ == config_path@
                    &&& final(self).cursors() == old(self).cursors()
                    &&& *final(queue) == *old(queue)
                },
                Err(CursorError::IoError(_)) => false,
            },
    {
        match self.touch(cursor_id, config_path, now) {
            Ok(()) => Ok(queue.read_batch(limits)),
            Err(e) => Err(e),
        }
    }

    /// Whether there is a cursor of this name.
    pub fn has_cursor(&self, cursor_id: &str) -> (r: bool)
        ensures
            r == self.cursors().contains_key(cursor_id@),
    {
        self.cursors.get(cursor_id).is_some()
    }

    /// Closes all cursors into the logs of a configuration.
    pub fn invalidate_config_cursors(&mut self, config_path: &str)
        ensures
            final(self).ttl() == old(self).ttl(),
            final(self).next() == old(self).next(),
            forall|id: Seq<char>| #[trigger]
                final(self).cursors().contains_key(id) <==> old(self).cursors().contains_key(id)
                    && old(self).cursors()[id].0 != config_path@,
            final(self).cursors().submap_of(old(self).cursors()),
    {
        let rule = KeepRule::OtherText(config_path.to_owned());
        self.cursors.retain(&rule);
    }

    /// Closes all cursors of a connection.
    pub fn invalidate_connection_cursors(&mut self, connection_id: u64)
        ensures
            final(self).ttl() == old(self).ttl(),
            final(self).next() == old(self).next(),
            forall|id: Seq<char>| #[trigger]
                final(self).cursors().contains_key(id) <==> old(self).cursors().contains_key(id)
                    && old(self).cursors()[id].1 != connection_id,
            final(self).cursors().submap_of(old(self).cursors()),
    {
        let rule = KeepRule::OtherFirst(connection_id);
        self.cursors.retain(&rule);
    }

    /// Closes the cursors that were not used for long enough. A last use after `now` counts as
    /// one at `now`.
    pub fn cleanup_stale(&mut self, now: u64)
        ensures
            final(self).ttl() == old(self).ttl(),
            final(self).next() == old(self).next(),
            forall|id: Seq<char>| #[trigger]
                final(self).cursors().contains_key(id) <==> old(self).cursors().contains_key(id)
                    && !stale(old(self).cursors()[id].2, now, old(self).ttl()),
            final(self).cursors().submap_of(old(self).cursors()),
    {
        let rule = KeepRule::Within { now, span: self.ttl };
        self.cursors.retain(&rule);
    }
}

/// Whether a cursor was not used for long enough.
pub open spec fn stale(last: u64, now: u64, ttl: u64) -> bool {
    let idle: int = if now >= last {
        now - last
    } else {
        0
    };
    idle >= ttl
}

/// A cursor that was just used is not stale, unless cursors do not stay at all.
pub proof fn law_used_cursor_stays(now: u64, ttl: u64)
    requires
        ttl > 0,
    ensures
        !stale(now, now, ttl),
{
}

/// A cursor that is stale stays so until it is used.
pub proof fn law_stale_stays_stale(last: u64, now: u64, later: u64, ttl: u64)
    requires
        stale(last, now, ttl),
        now <= later,
    ensures
        stale(last, later, ttl),
{
}

// ---------------------------------------------------------------------------------------------
// New files
// ---------------------------------------------------------------------------------------------

/// Whether a file is new to a cursor: it was not known, or another file took its place.
pub open spec fn is_new_file(known: Map<Seq<char>, u64>, path: Seq<char>, inode: Option<u64>) -> bool {
    !known.contains_key(path) || (inode matches Some(i) && known[path] != i)
}

/// The known files after the first `n` of the current ones were seen. A file without an inode
/// number is not noted.
pub open spec fn known_after(
    known: Map<Seq<char>, u64>,
    files: Seq<(String, Option<u64>)>,
    n: nat,
) -> Map<Seq<char>, u64>
    decreases n,
{
    if n == 0 {
        known
    } else {
        let before = known_after(known, files, (n - 1) as nat);
        let (path, inode) = files[n - 1];
        if is_new_file(known, path@, inode) && inode is Some {
            before.insert(path@, inode->0)
        } else {
            before
        }
    }
}

/// Those of the first `n` current files that are new.
pub open spec fn new_file_places(
    known: Map<Seq<char>, u64>,
    files: Seq<(String, Option<u64>)>,
    n: nat,
) -> Seq<usize>
    decreases n,
{
    if n == 0 {
        seq![]
    } else {
        let before = new_file_places(known, files, (n - 1) as nat);
        let (path, inode) = files[n - 1];
        if is_new_file(known, path@, inode) {
            before.push((n - 1) as usize)
        } else {
            before
        }
    }
}

/// The places of the files that are new to a cursor.
fn find_new_files(known: &NameMap<u64>, files: &Vec<(String, Option<u64>)>) -> (r: Vec<usize>)
    ensures
        r@ == new_file_places(known@, files@, files@.len()),
{
    let mut out: Vec<usize> = Vec::new();
    let mut i: usize = 0;
    while i < files.len()
        invariant
            i <= files@.len(),
            out@ == new_file_places(known@, files@, i as nat),
        decreases files@.len() - i,
    {
        let new: bool = match known.get(files[i].0.as_str()) {
            None => true,
            Some(k) => match files[i].1 {
                Some(inode) => *k != inode,
                None => false,
            },
        };
        if new {
            out.push(i);
        }
        i += 1;
    }
    out
}

/// The places of the files that are new to a cursor, which knows them from then on.
pub fn discover_files(known: &mut NameMap<u64>, files: &Vec<(String, Option<u64>)>) -> (r: Vec<usize>)
    ensures
        r@ == new_file_places(old(known)@, files@, files@.len()),
        final(known)@ == known_after(old(known)@, files@, files@.len()),
{
    let ghost was = known@;
    let places = find_new_files(known, files);
    let mut i: usize = 0;
    let mut p: usize = 0;
    while i < files.len()
        invariant
            i <= files@.len(),
            was == old(known)@,
            known@ == known_after(was, files@, i as nat),
            places@ == new_file_places(was, files@, files@.len()),
            p <= places@.len(),
            places@.take(p as int) == new_file_places(was, files@, i as nat),
        decreases files@.len() - i,
    {
        proof {
            lemma_places_prefix(was, files@, i as nat + 1, files@.len());
            lemma_places_below(was, files@, i as nat);
            lemma_places_prefix(was, files@, i as nat, files@.len());
            if p < places@.len() && places@[p as int] == i {
                lemma_place_is_new(was, files@, files@.len(), p as int);
            }
            if is_new_file(was, files@[i as int].0@, files@[i as int].1) {
                let longer = new_file_places(was, files@, i as nat + 1);
                assert(longer.last() == i as usize);
                assert(longer[p as int] == i as usize);
                assert(places@[p as int] == longer[p as int]);
            }
        }
        if p < places.len() && places[p] == i {
            if let Some(inode) = files[i].1 {
                known.insert(files[i].0.clone(), inode);
            }
            p += 1;
            assert(places@.take(p as int) == new_file_places(was, files@, i as nat).push(
                i as usize,
            ));
        }
        i += 1;
    }
    places
}

/// The places found early stand at the beginning.
proof fn lemma_places_prefix(
    known: Map<Seq<char>, u64>,
    files: Seq<(String, Option<u64>)>,
    k: nat,
    n: nat,
)
    requires
        k <= n,
    ensures
        new_file_places(known, files, k).len() <= new_file_places(known, files, n).len(),
        new_file_places(known, files, n).take(new_file_places(known, files, k).len() as int)
            == new_file_places(known, files, k),
    decreases n - k,
{
    if k < n {
        lemma_places_prefix(known, files, k, (n - 1) as nat);
        let a = new_file_places(known, files, k);
        let b = new_file_places(known, files, (n - 1) as nat);
        let c = new_file_places(known, files, n);
        assert(c.take(a.len() as int) =~= b.take(a.len() as int));
    } else {
        let a = new_file_places(known, files, k);
        assert(a.take(a.len() as int) == a);
    }
}

/// The places found are below the number of files seen.
proof fn lemma_places_below(known: Map<Seq<char>, u64>, files: Seq<(String, Option<u64>)>, n: nat)
    requires
        n <= files.len(),
        files.len() <= usize::MAX,
    ensures
        forall|j: int|
            0 <= j < new_file_places(known, files, n).len() ==> (#[trigger] new_file_places(
                known,
                files,
                n,
            )[j]) < n,
    decreases n,
{
    if n > 0 {
        lemma_places_below(known, files, (n - 1) as nat);
        let before = new_file_places(known, files, (n - 1) as nat);
        let all = new_file_places(known, files, n);
        assert forall|j: int| 0 <= j < all.len() implies (#[trigger] all[j]) < n by {
            if j < before.len() {
                assert(all[j] == before[j]);
            }
        }
    }
}

/// A place that was found is that of a new file.
proof fn lemma_place_is_new(
    known: Map<Seq<char>, u64>,
    files: Seq<(String, Option<u64>)>,
    n: nat,
    p: int,
)
    requires
        n <= files.len(),
        files.len() <= usize::MAX,
        0 <= p < new_file_places(known, files, n).len(),
    ensures
        new_file_places(known, files, n)[p] < files.len(),
        is_new_file(
            known,
            files[new_file_places(known, files, n)[p] as int].0@,
            files[new_file_places(known, files, n)[p] as int].1,
        ),
    decreases n,
{
    if n > 0 {
        let before = new_file_places(known, files, (n - 1) as nat);
        if p < before.len() {
            lemma_place_is_new(known, files, (n - 1) as nat, p);
        }
    }
}

// ---------------------------------------------------------------------------------------------
// Batches
// ---------------------------------------------------------------------------------------------

/// How much is read at once.
#[derive(Debug, Clone, Copy, PartialEq, Eq, Structural)]
pub struct BatchLimits {
    /// How many entries at most.
    pub max_entries: usize,
    /// How large a message may be.
    pub max_message_size: usize,
}

impl BatchLimits {
    /// The size of the entries that fit: eight tenths of a message.
    pub open spec fn budget(self) -> int {
        self.max_message_size as int * 8 / 10
    }

    /// The size of the entries that fit.
    pub fn response_budget(&self) -> (r: usize)
        ensures
            r == self.budget(),
    {
        (self.max_message_size as u128 * 8 / 10) as usize
    }
}

// ---------------------------------------------------------------------------------------------
// What holds of cursors
// ---------------------------------------------------------------------------------------------

/// A cursor that is opened is there, with the configuration, the connection and the time given;
/// the others stay.
pub proof fn law_opened_cursor_is_there(
    m: &mut CursorManager,
    config: String,
    connection: u64,
    now: u64,
    id: String,
    other: Seq<char>,
)
    requires
        call_ensures(CursorManager::create_cursor, (m, config, connection, now), id),
    ensures
        final(m).cursors().contains_key(id@),
        final(m).cursors()[id@] == (config@, connection, now),
        other != id@ ==> (final(m).cursors().contains_key(other)
            <==> old(m).cursors().contains_key(other)),
        other != id@ && old(m).cursors().contains_key(other) ==> final(m).cursors()[other]
            == old(m).cursors()[other],
        final(m).next() != old(m).next(),
{
}

/// Cursors with different numbers have different names.
pub proof fn law_cursor_names_differ(a: u64, b: u64)
    requires
        a != b,
    ensures
        cursor_name(a) != cursor_name(b),
{
    let head = "cursor_"@;
    if cursor_name(a) == cursor_name(b) {
        assert(hexadecimal(a as nat) =~= cursor_name(a).skip(head.len() as int));
        assert(hexadecimal(b as nat) =~= cursor_name(b).skip(head.len() as int));
        lemma_hexadecimal_differs(a as nat, b as nat);
    }
}

/// A cursor can be used for the configuration that it belongs to, and for no other; its last use is
/// then now. One that is not there has expired.
pub proof fn law_cursor_serves_its_configuration(
    m: &mut CursorManager,
    id: &str,
    config: &str,
    now: u64,
    r: Result<(), CursorError>,
    other: Seq<char>,
)
    requires
        call_ensures(CursorManager::touch, (m, id, config, now), r),
    ensures
        r is Ok <==> old(m).cursors().contains_key(id@) && old(m).cursors()[id@].0 == config@,
        r is Ok ==> final(m).cursors()[id@] == (config@, old(m).cursors()[id@].1, now),
        r is Err ==> final(m).cursors() == old(m).cursors(),
        !old(m).cursors().contains_key(id@) ==> (r matches Err(CursorError::CursorExpired(n)) && n@
            == id@),
        old(m).cursors().contains_key(id@) && old(m).cursors()[id@].0 != config@ ==> (r matches Err(
            CursorError::CursorConfigMismatch { .. },
        )),
        other != id@ ==> (final(m).cursors().contains_key(other)
            <==> old(m).cursors().contains_key(other)),
        other != id@ && old(m).cursors().contains_key(other) ==> final(m).cursors()[other]
            == old(m).cursors()[other],
{
}

/// A cursor is closed exactly when it was last used at least the time to live ago; a use in the
/// future counts as one now.
pub proof fn law_idle_cursor_is_closed(m: &mut CursorManager, now: u64, id: Seq<char>)
    requires
        call_ensures(CursorManager::cleanup_stale, (m, now), ()),
        old(m).cursors().contains_key(id),
    ensures
        now - old(m).cursors()[id].2 >= old(m).ttl() ==> !final(m).cursors().contains_key(id),
        now >= old(m).cursors()[id].2 && now - old(m).cursors()[id].2 < old(m).ttl()
            ==> final(m).cursors().contains_key(id) && final(m).cursors()[id]
            == old(m).cursors()[id],
        now < old(m).cursors()[id].2 && old(m).ttl() > 0 ==> final(m).cursors().contains_key(id),
{
}

/// The time to live is given in seconds and counted in milliseconds.
pub proof fn law_time_to_live_in_seconds(secs: u64, m: CursorManager)
    requires
        call_ensures(CursorManager::new, (secs,), m),
        secs <= u64::MAX / 1000,
    ensures
        m.ttl() == secs * 1000,
{
}

/// When a configuration goes its cursors are closed and no others, and so it is with a connection.
pub proof fn law_cursors_go_with_their_owner(
    m: &mut CursorManager,
    n: &mut CursorManager,
    config: &str,
    connection: u64,
    id: Seq<char>,
)
    requires
        call_ensures(CursorManager::invalidate_config_cursors, (m, config), ()),
        call_ensures(CursorManager::invalidate_connection_cursors, (n, connection), ()),
    ensures
        old(m).cursors().contains_key(id) ==> (final(m).cursors().contains_key(id)
            <==> old(m).cursors()[id].0 != config@),
        old(n).cursors().contains_key(id) ==> (final(n).cursors().contains_key(id)
            <==> old(n).cursors()[id].1 != connection),
        !old(m).cursors().contains_key(id) ==> !final(m).cursors().contains_key(id),
        !old(n).cursors().contains_key(id) ==> !final(n).cursors().contains_key(id),
{
}

/// A file is new exactly if its path was not known, or another file has it now. What has no number
/// and a known path is not new. A new file with a number is known from then on.
pub proof fn law_new_files_are_found(
    known: &mut NameMap<u64>,
    files: Vec<(String, Option<u64>)>,
    r: Vec<usize>,
    i: int,
)
    requires
        call_ensures(discover_files, (known, &files), r),
        0 <= i < files@.len(),
        files@.len() <= usize::MAX,
    ensures
        ({
            let path = files@[i].0@;
            let new = r@.contains(i as usize);
            &&& !old(known)@.contains_key(path) ==> new
            &&& old(known)@.contains_key(path) ==> match files@[i].1 {
                Some(inode) => new <==> old(known)@[path] != inode,
                None => !new,
            }
        }),
        (files@[i].1 matches Some(inode)) ==> final(known)@.contains_key(files@[i].0@),
{
    lemma_places_hold(old(known)@, files@, files@.len(), i);
    lemma_known_hold(old(known)@, files@, files@.len(), i);
}

/// A file is found exactly if it is new.
proof fn lemma_places_hold(
    known: Map<Seq<char>, u64>,
    files: Seq<(String, Option<u64>)>,
    n: nat,
    i: int,
)
    requires
        n <= files.len(),
        files.len() <= usize::MAX,
        0 <= i < files.len(),
    ensures
        new_file_places(known, files, n).contains(i as usize) <==> i < n && is_new_file(
            known,
            files[i].0@,
            files[i].1,
        ),
    decreases n,
{
    if n > 0 {
        lemma_places_hold(known, files, (n - 1) as nat, i);
        let before = new_file_places(known, files, (n - 1) as nat);
        let all = new_file_places(known, files, n);
        if before.contains(i as usize) {
            assert(all[before.index_of(i as usize)] == i as usize);
        }
        if all.contains(i as usize) && !before.contains(i as usize) {
            let j = all.index_of(i as usize);
            if j < before.len() {
                assert(before[j] == i as usize);
            }
            assert(all[j] == (n - 1) as usize);
        }
        if i == n - 1 && is_new_file(known, files[i].0@, files[i].1) {
            assert(all[before.len() as int] == i as usize);
        }
    }
}

/// What was known stays known, and a file with a number is known once it was seen.
proof fn lemma_known_hold(
    known: Map<Seq<char>, u64>,
    files: Seq<(String, Option<u64>)>,
    n: nat,
    i: int,
)
    requires
        n <= files.len(),
        0 <= i < files.len(),
    ensures
        forall|p: Seq<char>| known.contains_key(p) ==> #[trigger] known_after(
            known,
            files,
            n,
        ).contains_key(p),
        i < n && files[i].1 is Some ==> known_after(known, files, n).contains_key(files[i].0@),
    decreases n,
{
    if n > 0 {
        lemma_known_hold(known, files, (n - 1) as nat, i);
        assert forall|p: Seq<char>| known.contains_key(p) implies #[trigger] known_after(
            known,
            files,
            n,
        ).contains_key(p) by {
            assert(known_after(known, files, (n - 1) as nat).contains_key(p));
        }
    }
}

/// The entries of an answer take at most eight tenths of a message, and that is used to the last
/// byte.
pub proof fn law_budget_is_eight_tenths(limits: BatchLimits, r: usize)
    requires
        call_ensures(BatchLimits::response_budget, (&limits,), r),
    ensures
        10 * r <= 8 * limits.max_message_size,
        10 * r + 10 > 8 * limits.max_message_size,
{
}

/// A cursor reads for the configuration that it belongs to, and for no other: the first lines that
/// are left, which it then leaves behind. It says whether there are more.
pub proof fn law_cursor_reads_what_is_left(
    m: &mut CursorManager,
    id: &str,
    config: &str,
    now: u64,
    queue: &mut LogQueue,
    limits: BatchLimits,
    r: Result<(Vec<LogLine>, bool), CursorError>,
)
    requires
        call_ensures(CursorManager::read_entries, (m, id, config, now, queue, &limits), r),
    ensures
        r is Ok <==> old(m).cursors().contains_key(id@) && old(m).cursors()[id@].0 == config@,
        r is Err ==> *final(queue) == *old(queue) && final(m).cursors() == old(m).cursors(),
        r matches Ok((batch, more)) ==> {
            let all = all_lines(old(queue).logs());
            &&& batch@ + all_lines(final(queue).logs()) == all
            &&& more <==> batch@.len() < all.len()
            &&& all.len() > 0 ==> batch@.len() > 0
            &&& final(m).cursors()[id@].2 == now
        },
{
    if let Ok((batch, more)) = r {
        let all = all_lines(old(queue).logs());
        assert(all.take(batch@.len() as int) + all.skip(batch@.len() as int) =~= all);
        if all.len() > 0 && batch@.len() == 0 {
            assert(!crate::log_lines::goes_in(all, limits, 0));
        }
    }
}

} // verus!
