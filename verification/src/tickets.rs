//! Tickets for online tracks. A client gets a random name; what it stands for stays here, for as
//! long as it is used.

use vstd::prelude::*;

use crate::ids::{id_of, id_text, random_u64};
use crate::models::{clone_text, text_of, Quality, SongSource, SongSourceModel};
use crate::table::{lemma_table, Table};

verus! {

/// What a ticket stands for.
pub struct SongPreviewTicket {
    pub source: SongSource,
    pub quality: Quality,
    /// The key under which the media is kept, where it is known.
    pub cache_key: Option<String>,
    /// The media is kept already.
    pub cached: bool,
    pub url: String,
    /// A browser session found the address; nobody else can renew it.
    pub browser_resolved: bool,
    /// The growing file that the media comes from.
    pub protected_spool: Option<u64>,
    /// Microseconds of a clock that never goes back.
    pub last_used_at: u64,
}

#[verifier::ext_equal]
pub struct TicketModel {
    pub source: SongSourceModel,
    pub quality: Quality,
    pub cache_key: Option<Seq<char>>,
    pub cached: bool,
    pub url: Seq<char>,
    pub browser_resolved: bool,
    pub protected_spool: Option<u64>,
    pub last_used_at: u64,
}

impl View for SongPreviewTicket {
    type V = TicketModel;

    open spec fn view(&self) -> TicketModel {
        TicketModel {
            source: self.source@,
            quality: self.quality,
            cache_key: text_of(self.cache_key),
            cached: self.cached,
            url: self.url@,
            browser_resolved: self.browser_resolved,
            protected_spool: self.protected_spool,
            last_used_at: self.last_used_at,
        }
    }
}

impl Clone for SongPreviewTicket {
    fn clone(&self) -> (r: Self)
        ensures
            r@ == self@,
    {
        SongPreviewTicket {
            source: self.source.clone(),
            quality: self.quality,
            cache_key: clone_text(&self.cache_key),
            cached: self.cached,
            url: self.url.clone(),
            browser_resolved: self.browser_resolved,
            protected_spool: self.protected_spool,
            last_used_at: self.last_used_at,
        }
    }
}

/// The most tickets at a time.
pub const MAX_SONG_PREVIEW_TICKETS: usize = 256;

/// How long a ticket lives without being used: two hours.
pub const SONG_PREVIEW_TICKET_TTL: u64 = 7_200_000_000;

pub struct SongPreviewTickets {
    pub entries: Table<String, SongPreviewTicket>,
    pub max_entries: usize,
    pub ttl: u64,
}

pub open spec fn ticket_models(m: Map<Seq<char>, SongPreviewTicket>) -> Map<
    Seq<char>,
    TicketModel,
> {
    Map::new(|k: Seq<char>| m.contains_key(k), |k: Seq<char>| m[k]@)
}

impl View for SongPreviewTickets {
    type V = Map<Seq<char>, TicketModel>;

    open spec fn view(&self) -> Map<Seq<char>, TicketModel> {
        ticket_models(self.entries@)
    }
}

/// Whether a ticket has outlived its time. A moment before its last use counts as that use.
pub open spec fn is_expired(ticket: TicketModel, now: u64, ttl: u64) -> bool {
    now - ticket.last_used_at >= ttl || ttl == 0
}

pub open spec fn unexpired(m: Map<Seq<char>, TicketModel>, now: u64, ttl: u64) -> Map<
    Seq<char>,
    TicketModel,
> {
    Map::new(
        |k: Seq<char>| m.contains_key(k) && !is_expired(m[k], now, ttl),
        |k: Seq<char>| m[k],
    )
}

/// There is such a ticket, and it has not outlived its time.
pub open spec fn is_alive(m: Map<Seq<char>, TicketModel>, token: Seq<char>, now: u64, ttl: u64) -> bool {
    m.contains_key(token) && !is_expired(m[token], now, ttl)
}

/// The tickets after one was used: it lives on from now, or it goes.
pub open spec fn after_use(m: Map<Seq<char>, TicketModel>, token: Seq<char>, now: u64, ttl: u64) -> Map<
    Seq<char>,
    TicketModel,
> {
    if is_alive(m, token, now, ttl) {
        m.insert(token, TicketModel { last_used_at: now, ..m[token] })
    } else {
        m.remove(token)
    }
}

/// The tickets after one got a new address.
pub open spec fn after_renewal(
    m: Map<Seq<char>, TicketModel>,
    token: Seq<char>,
    url: Seq<char>,
    now: u64,
    ttl: u64,
) -> Map<Seq<char>, TicketModel> {
    if is_alive(m, token, now, ttl) {
        m.insert(token, TicketModel { url, cached: false, last_used_at: now, ..m[token] })
    } else {
        m.remove(token)
    }
}

/// How many tickets may stay beside a new one.
pub open spec fn room(max_entries: usize) -> int {
    if max_entries > 1 {
        max_entries - 1
    } else {
        0
    }
}

/// `kept` is what is left of `base` when the tickets used longest ago have made room.
pub open spec fn made_room(
    base: Map<Seq<char>, TicketModel>,
    kept: Map<Seq<char>, TicketModel>,
    room: int,
) -> bool {
    &&& forall|k: Seq<char>| #[trigger]
        kept.contains_key(k) ==> base.contains_key(k) && kept[k] == base[k]
    &&& kept.dom().len() == if base.dom().len() > room {
        room
    } else {
        base.dom().len() as int
    }
    &&& forall|gone: Seq<char>, k: Seq<char>|
        base.contains_key(gone) && !kept.contains_key(gone) && kept.contains_key(k)
            ==> (#[trigger] base[gone]).last_used_at <= (#[trigger] kept[k]).last_used_at
}

fn expired(ticket: &SongPreviewTicket, now: u64, ttl: u64) -> (r: bool)
    ensures
        r == is_expired(ticket@, now, ttl),
{
    ttl == 0 || (now >= ticket.last_used_at && now - ticket.last_used_at >= ttl)
}

impl Default for SongPreviewTickets {
    fn default() -> (r: Self)
        ensures
            r.well_formed(),
            r@ == Map::<Seq<char>, TicketModel>::empty(),
            r.max_entries == MAX_SONG_PREVIEW_TICKETS,
            r.ttl == SONG_PREVIEW_TICKET_TTL,
    {
        Self::with_limits(MAX_SONG_PREVIEW_TICKETS, SONG_PREVIEW_TICKET_TTL)
    }
}

impl SongPreviewTickets {
    pub open spec fn well_formed(self) -> bool {
        self.entries.well_formed()
    }

    pub fn with_limits(max_entries: usize, ttl: u64) -> (r: Self)
        ensures
            r.well_formed(),
            r@ == Map::<Seq<char>, TicketModel>::empty(),
            r.max_entries == max_entries,
            r.ttl == ttl,
    {
        let r = SongPreviewTickets { entries: Table::new(), max_entries, ttl };
        assert(r@ =~= Map::<Seq<char>, TicketModel>::empty());
        r
    }

    /// Whether a ticket is there, expired or not.
    pub fn contains(&self, token: &str) -> (r: bool)
        requires
            self.well_formed(),
        ensures
            r == self@.contains_key(token@),
    {
        let key = token.to_owned();
        self.entries.get(&key).is_some()
    }

    fn prune_expired_at(&mut self, now: u64)
        requires
            old(self).well_formed(),
        ensures
            final(self).well_formed(),
            final(self).max_entries == old(self).max_entries,
            final(self).ttl == old(self).ttl,
            final(self)@ == unexpired(old(self)@, now, old(self).ttl),
    {
        let ghost before = self.entries@;
        let ghost wanted = unexpired(self@, now, self.ttl);
        let ttl: u64 = self.ttl;
        let mut i: usize = 0;
        while i < self.entries.entries.len()
            invariant
                self.well_formed(),
                self.max_entries == old(self).max_entries,
                self.ttl == old(self).ttl,
                ttl == self.ttl,
                i <= self.entries.entries@.len(),
                wanted == unexpired(ticket_models(before), now, ttl),
                forall|j: int|
                    0 <= j < i ==> !is_expired((#[trigger] self.entries.entries@[j]).1@, now, ttl),
                forall|k: Seq<char>| #[trigger]
                    self.entries@.contains_key(k) ==> before.contains_key(k) && self.entries@[k]
                        == before[k],
                forall|k: Seq<char>| #[trigger]
                    before.contains_key(k) && !is_expired(before[k]@, now, ttl)
                        ==> self.entries@.contains_key(k),
            decreases self.entries.entries@.len() - i,
        {
            if expired(&self.entries.entries[i].1, now, ttl) {
                proof {
                    lemma_table(self.entries.entries@);
                }
                let ghost list = self.entries.entries@;
                let ghost m = self.entries@;
                let ghost gone = list[i as int].0@;
                let removed = self.entries.remove_at(i);
                proof {
                    assert forall|k: Seq<char>| #[trigger]
                        before.contains_key(k) && !is_expired(
                            before[k]@,
                            now,
                            ttl,
                        ) implies self.entries@.contains_key(k) by {
                        assert(m.contains_key(k));
                        if k == gone {
                            assert(m[k] == list[i as int].1);
                        }
                    }
                    assert forall|j: int| 0 <= j < i implies !is_expired(
                        (#[trigger] self.entries.entries@[j]).1@,
                        now,
                        ttl,
                    ) by {
                        assert(self.entries.entries@[j] == list[j]);
                    }
                }
            } else {
                i += 1;
            }
        }
        proof {
            lemma_table(self.entries.entries@);
            assert forall|k: Seq<char>| self@.contains_key(k) == wanted.contains_key(k) by {
                if self.entries@.contains_key(k) {
                    let j = choose|j: int|
                        0 <= j < self.entries.entries@.len() && (
                        #[trigger] self.entries.entries@[j]).0@ == k;
                    assert(self.entries@[self.entries.entries@[j].0@]
                        == self.entries.entries@[j].1);
                }
            }
            assert(self@ =~= wanted);
        }
    }

    /// Where the ticket that was used longest ago stands.
    fn oldest(&self) -> (r: usize)
        requires
            self.entries.entries@.len() > 0,
        ensures
            r < self.entries.entries@.len(),
            forall|j: int|
                0 <= j < self.entries.entries@.len() ==> self.entries.entries@[r as int].1.last_used_at
                    <= (#[trigger] self.entries.entries@[j]).1.last_used_at,
    {
        let mut best: usize = 0;
        let mut i: usize = 1;
        while i < self.entries.entries.len()
            invariant
                best < self.entries.entries@.len(),
                i <= self.entries.entries@.len(),
                forall|j: int|
                    0 <= j < i ==> self.entries.entries@[best as int].1.last_used_at <= (
                    #[trigger] self.entries.entries@[j]).1.last_used_at,
            decreases self.entries.entries@.len() - i,
        {
            if self.entries.entries[i].1.last_used_at < self.entries.entries[best].1.last_used_at {
                best = i;
            }
            i += 1;
        }
        best
    }

    /// Removes the tickets used longest ago until `limit` are left.
    fn make_room(&mut self, limit: usize)
        requires
            old(self).well_formed(),
        ensures
            final(self).well_formed(),
            final(self).max_entries == old(self).max_entries,
            final(self).ttl == old(self).ttl,
            made_room(old(self)@, final(self)@, limit as int),
    {
        let ghost base = self@;
        let ghost start = self.entries@;
        proof {
            lemma_table(self.entries.entries@);
            assert(base.dom() =~= start.dom());
        }
        while self.entries.entries.len() > limit
            invariant
                self.well_formed(),
                self.max_entries == old(self).max_entries,
                self.ttl == old(self).ttl,
                base == ticket_models(start),
                base.dom().len() == start.dom().len(),
                start.dom().finite(),
                start.dom().len() >= self.entries.entries@.len(),
                self.entries.entries@.len() <= limit ==> (start.dom().len()
                    == self.entries.entries@.len() || self.entries.entries@.len() == limit),
                start.dom().len() <= limit ==> start.dom().len() == self.entries.entries@.len(),
                forall|k: Seq<char>| #[trigger]
                    self.entries@.contains_key(k) ==> start.contains_key(k) && self.entries@[k]
                        == start[k],
                forall|gone: Seq<char>, k: Seq<char>|
                    start.contains_key(gone) && !self.entries@.contains_key(gone)
                        && self.entries@.contains_key(k) ==> (
                    #[trigger] start[gone]).last_used_at <= (
                    #[trigger] self.entries@[k]).last_used_at,
            decreases self.entries.entries@.len(),
        {
            let at: usize = self.oldest();
            let ghost list = self.entries.entries@;
            let ghost m = self.entries@;
            let ghost victim = list[at as int].0@;
            proof {
                lemma_table(list);
            }
            let removed = self.entries.remove_at(at);
            proof {
                assert(m[victim] == list[at as int].1);
                assert forall|gone: Seq<char>, k: Seq<char>|
                    start.contains_key(gone) && !self.entries@.contains_key(gone)
                        && self.entries@.contains_key(k) implies (
                #[trigger] start[gone]).last_used_at <= (
                #[trigger] self.entries@[k]).last_used_at by {
                    assert(m.contains_key(k) && m[k] == self.entries@[k]);
                    if m.contains_key(gone) {
                        assert(gone == victim);
                        let j = choose|j: int|
                            0 <= j < list.len() && (#[trigger] list[j]).0@ == k;
                        assert(m[list[j].0@] == list[j].1);
                    } else {
                        assert(start[gone].last_used_at <= m[k].last_used_at);
                    }
                }
            }
        }
        proof {
            lemma_table(self.entries.entries@);
            let kept = self@;
            assert(kept.dom() =~= self.entries@.dom());
            assert forall|k: Seq<char>| #[trigger] kept.contains_key(k) implies base.contains_key(k)
                && kept[k] == base[k] by {
                assert(self.entries@.contains_key(k));
            }
            assert forall|gone: Seq<char>, k: Seq<char>|
                base.contains_key(gone) && !kept.contains_key(gone) && kept.contains_key(
                    k,
                ) implies (#[trigger] base[gone]).last_used_at <= (
            #[trigger] kept[k]).last_used_at by {
                assert(start[gone].last_used_at <= self.entries@[k].last_used_at);
            }
        }
    }

    /// Issues a ticket. Expired ones go first; where the list is still full, those used longest ago
    /// make room. A ticket of the same name is replaced and costs no other one.
    pub fn insert(&mut self, token: String, ticket: SongPreviewTicket)
        requires
            old(self).well_formed(),
        ensures
            final(self).well_formed(),
            final(self).max_entries == old(self).max_entries,
            final(self).ttl == old(self).ttl,
            final(self)@.contains_key(token@),
            final(self)@[token@] == ticket@,
            made_room(
                unexpired(old(self)@, ticket.last_used_at, old(self).ttl).remove(token@),
                final(self)@.remove(token@),
                room(old(self).max_entries),
            ),
    {
        let now: u64 = ticket.last_used_at;
        self.prune_expired_at(now);
        let ghost pruned = self@;
        let there = self.entries.remove(&token);
        let ghost base = self@;
        assert(base =~= pruned.remove(token@));
        let limit: usize = if self.max_entries > 1 {
            self.max_entries - 1
        } else {
            0
        };
        self.make_room(limit);
        let ghost kept = self@;
        let ghost model = ticket@;
        self.entries.set(token, ticket);
        proof {
            assert(!kept.contains_key(token@));
            assert(self@ =~= kept.insert(token@, model));
            assert(self@.remove(token@) =~= kept);
        }
    }

    /// Looks a ticket up for use: it then lives on from now. An expired one is removed.
    pub fn get_and_touch(&mut self, token: &str, now: u64) -> (r: Option<SongPreviewTicket>)
        requires
            old(self).well_formed(),
        ensures
            final(self).well_formed(),
            final(self)@ == after_use(old(self)@, token@, now, old(self).ttl),
            r is Some == is_alive(old(self)@, token@, now, old(self).ttl),
            r matches Some(ticket) ==> ticket@ == after_use(
                old(self)@,
                token@,
                now,
                old(self).ttl,
            )[token@],
            final(self).max_entries == old(self).max_entries,
            final(self).ttl == old(self).ttl,
            if !old(self)@.contains_key(token@) {
                r is None && final(self)@ == old(self)@
            } else if is_expired(old(self)@[token@], now, old(self).ttl) {
                r is None && final(self)@ == old(self)@.remove(token@)
            } else {
                let touched = TicketModel { last_used_at: now, ..old(self)@[token@] };
                &&& r matches Some(ticket) && ticket@ == touched
                &&& final(self)@ == old(self)@.insert(token@, touched)
            },
    {
        let key = token.to_owned();
        let ghost before = self@;
        let ticket = match self.entries.get(&key) {
            Some(ticket) => ticket.clone(),
            None => {
                return None;
            },
        };
        if expired(&ticket, now, self.ttl) {
            let there = self.entries.remove(&key);
            assert(self@ =~= before.remove(token@));
            return None;
        }
        let touched = SongPreviewTicket { last_used_at: now, ..ticket };
        let kept = touched.clone();
        self.entries.set(key, kept);
        assert(self@ =~= before.insert(token@, touched@));
        Some(touched)
    }

    /// Gives a ticket a new address; its name stays the same. An expired one is removed.
    pub fn update_url(&mut self, token: &str, url: String, now: u64) -> (r: bool)
        requires
            old(self).well_formed(),
        ensures
            final(self).well_formed(),
            final(self)@ == after_renewal(old(self)@, token@, url@, now, old(self).ttl),
            r == is_alive(old(self)@, token@, now, old(self).ttl),
            final(self).max_entries == old(self).max_entries,
            final(self).ttl == old(self).ttl,
            if !old(self)@.contains_key(token@) {
                !r && final(self)@ == old(self)@
            } else if is_expired(old(self)@[token@], now, old(self).ttl) {
                !r && final(self)@ == old(self)@.remove(token@)
            } else {
                r && final(self)@ == old(self)@.insert(
                    token@,
                    TicketModel {
                        url: url@,
                        cached: false,
                        last_used_at: now,
                        ..old(self)@[token@]
                    },
                )
            },
    {
        let key = token.to_owned();
        let ghost before = self@;
        let ticket = match self.entries.get(&key) {
            Some(ticket) => ticket.clone(),
            None => {
                return false;
            },
        };
        if expired(&ticket, now, self.ttl) {
            let there = self.entries.remove(&key);
            assert(self@ =~= before.remove(token@));
            return false;
        }
        let changed = SongPreviewTicket { url, cached: false, last_used_at: now, ..ticket };
        let ghost model = changed@;
        self.entries.set(key, changed);
        assert(self@ =~= before.insert(token@, model));
        true
    }
}

/// The list never grows beyond its limit, but for the one ticket that is always issued.
pub proof fn tickets_are_limited(
    before: Map<Seq<char>, TicketModel>,
    after: Map<Seq<char>, TicketModel>,
    token: Seq<char>,
    max_entries: usize,
)
    requires
        after.dom().finite(),
        after.contains_key(token),
        made_room(before, after.remove(token), room(max_entries)),
    ensures
        after.dom().len() <= if max_entries > 1 {
            max_entries as int
        } else {
            1
        },
{
    assert(after.remove(token).dom() =~= after.dom().remove(token));
}

/// A ticket that is used again before it expires lives on; a renewed address changes neither the
/// track nor the quality.
pub proof fn use_renews_a_ticket(ticket: TicketModel, used: u64, later: u64, ttl: u64, url: Seq<char>)
    requires
        !is_expired(ticket, used, ttl),
        used <= later < used + ttl,
    ensures
        !is_expired(TicketModel { last_used_at: used, ..ticket }, later, ttl),
        (TicketModel { url, cached: false, last_used_at: used, ..ticket }).source == ticket.source,
        (TicketModel { url, cached: false, last_used_at: used, ..ticket }).quality
            == ticket.quality,
{
}

/// The name of a ticket: 32 hexadecimal digits.
pub open spec fn ticket_name(a: u64, b: u64) -> Seq<char> {
    id_text(a) + id_text(b)
}

pub fn ticket_name_of(a: u64, b: u64) -> (r: String)
    ensures
        r@ == ticket_name(a, b),
{
    let mut r = id_of(a);
    r.append(id_of(b).as_str());
    r
}

pub fn new_ticket_name() -> (r: String)
    ensures
        exists|a: u64, b: u64| r@ == #[trigger] ticket_name(a, b),
{
    let a: u64 = random_u64();
    let b: u64 = random_u64();
    ticket_name_of(a, b)
}

/// The address that a client gets for a ticket.
pub fn ticket_url(token: &str) -> (r: String)
    ensures
        r@ == "/api/song/preview/"@ + token@,
{
    let mut r = "/api/song/preview/".to_owned();
    r.append(token);
    r
}

} // verus!
