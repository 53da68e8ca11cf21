//! What one attempt to play an online track keeps over all its requests: how often it may still
//! retry, and which media it has seen.

use vstd::prelude::*;

use crate::ids::{id_text, new_id};
use crate::models::{clone_text, text_of, texts, Quality};
use crate::table::Table;
use crate::text::same;
use crate::urls::{parse_url, url_of, url_view, ParsedUrl, UrlModel};

verus! {

/// The replies that are being sent, counted by what they send.
pub struct ForegroundTransfers {
    pub active: Table<String, usize>,
}

/// One reply that is being sent; handed back with [`ForegroundTransfers::end`].
pub struct ForegroundTransfer {
    pub key: String,
}

/// How many replies send the media with this key.
pub open spec fn sending(active: Map<Seq<char>, usize>, key: Seq<char>) -> nat {
    if active.contains_key(key) {
        active[key] as nat
    } else {
        0
    }
}

/// The counts after one more reply began.
pub open spec fn after_begin(active: Map<Seq<char>, usize>, key: Seq<char>) -> Map<
    Seq<char>,
    usize,
> {
    active.insert(key, (sending(active, key) + 1) as usize)
}

/// The counts after a reply ended; media that is no longer sent is not counted.
pub open spec fn after_end(active: Map<Seq<char>, usize>, key: Seq<char>) -> Map<
    Seq<char>,
    usize,
> {
    if sending(active, key) > 1 {
        active.insert(key, (sending(active, key) - 1) as usize)
    } else {
        active.remove(key)
    }
}

impl ForegroundTransfers {
    /// Only media that is being sent is counted.
    pub open spec fn well_formed(self) -> bool {
        &&& self.active.well_formed()
        &&& forall|k: Seq<char>| #[trigger] self.active@.contains_key(k) ==> self.active@[k] > 0
    }

    pub fn new() -> (r: Self)
        ensures
            r.well_formed(),
            r.active@ == Map::<Seq<char>, usize>::empty(),
    {
        ForegroundTransfers { active: Table::new() }
    }

    /// Notes that a reply begins.
    pub fn begin_foreground(&mut self, key: &str) -> (r: ForegroundTransfer)
        requires
            old(self).well_formed(),
            sending(old(self).active@, key@) < usize::MAX,
        ensures
            final(self).well_formed(),
            r.key@ == key@,
            final(self).active@ == after_begin(old(self).active@, key@),
    {
        let owned = key.to_owned();
        let count: usize = match self.active.get(&owned) {
            Some(n) => *n,
            None => 0,
        };
        self.active.set(owned, count + 1);
        ForegroundTransfer { key: key.to_owned() }
    }

    /// Whether media is being sent.
    pub fn foreground_active(&self, key: &str) -> (r: bool)
        requires
            self.well_formed(),
        ensures
            r == (sending(self.active@, key@) > 0),
    {
        let owned = key.to_owned();
        self.active.get(&owned).is_some()
    }

    /// Notes that a reply has ended, in whatever way.
    pub fn end(&mut self, transfer: ForegroundTransfer)
        requires
            old(self).well_formed(),
        ensures
            final(self).well_formed(),
            final(self).active@ == after_end(old(self).active@, transfer.key@),
    {
        let count: usize = match self.active.get(&transfer.key) {
            Some(n) => *n,
            None => 0,
        };
        if count > 1 {
            self.active.set(transfer.key, count - 1);
        } else if count == 1 {
            let gone = self.active.remove(&transfer.key);
        } else {
            assert(self.active@.remove(transfer.key@) =~= self.active@);
        }
    }
}

/// What happens to replies: one that sends the media with a key begins or ends.
pub enum ReplyChange {
    Begin(Seq<char>),
    End(Seq<char>),
}

/// The counts after all that happened, in order.
pub open spec fn after_changes(history: Seq<ReplyChange>) -> Map<Seq<char>, usize>
    decreases history.len(),
{
    if history.len() == 0 {
        Map::empty()
    } else {
        match history.last() {
            ReplyChange::Begin(key) => after_begin(after_changes(history.drop_last()), key),
            ReplyChange::End(key) => after_end(after_changes(history.drop_last()), key),
        }
    }
}

/// How many replies with a key have begun and not ended.
pub open spec fn not_ended(history: Seq<ReplyChange>, key: Seq<char>) -> int
    decreases history.len(),
{
    if history.len() == 0 {
        0
    } else {
        let before = not_ended(history.drop_last(), key);
        match history.last() {
            ReplyChange::Begin(k) => if k == key {
                before + 1
            } else {
                before
            },
            ReplyChange::End(k) => if k == key {
                before - 1
            } else {
                before
            },
        }
    }
}

/// Only what has begun ends.
pub open spec fn is_history(history: Seq<ReplyChange>) -> bool
    decreases history.len(),
{
    history.len() == 0 || {
        &&& is_history(history.drop_last())
        &&& history.last() matches ReplyChange::End(key) ==> not_ended(history.drop_last(), key) > 0
    }
}

/// Whatever replies begin and end, in whatever order: media counts as being sent exactly while a
/// reply with its key has begun and not ended, and replies with other keys do not matter.
pub proof fn media_is_sent_until_its_last_reply_ends(history: Seq<ReplyChange>, key: Seq<char>)
    requires
        is_history(history),
        history.len() <= usize::MAX,
    ensures
        sending(after_changes(history), key) == not_ended(history, key),
        0 <= not_ended(history, key) <= history.len(),
    decreases history.len(),
{
    if history.len() > 0 {
        let front = history.drop_last();
        media_is_sent_until_its_last_reply_ends(front, key);
        match history.last() {
            ReplyChange::Begin(k) => {
                media_is_sent_until_its_last_reply_ends(front, k);
            },
            ReplyChange::End(k) => {
                media_is_sent_until_its_last_reply_ends(front, k);
            },
        }
    }
}

/// What identifies the media behind an address.
pub struct MediaEntity {
    pub path: String,
    pub mime: String,
    pub total: u64,
    pub validator: Option<String>,
}

#[verifier::ext_equal]
pub struct EntityModel {
    pub path: Seq<char>,
    pub mime: Seq<char>,
    pub total: u64,
    pub validator: Option<Seq<char>>,
}

impl View for MediaEntity {
    type V = EntityModel;

    open spec fn view(&self) -> EntityModel {
        EntityModel {
            path: self.path@,
            mime: self.mime@,
            total: self.total,
            validator: text_of(self.validator),
        }
    }
}

impl Clone for MediaEntity {
    fn clone(&self) -> (r: Self)
        ensures
            r@ == self@,
    {
        MediaEntity {
            path: self.path.clone(),
            mime: self.mime.clone(),
            total: self.total,
            validator: clone_text(&self.validator),
        }
    }
}

/// Two texts that are both known and differ.
pub open spec fn contradict(a: Option<Seq<char>>, b: Option<Seq<char>>) -> bool {
    a is Some && b is Some && a != b
}

/// Two replies can be parts of the same media.
pub open spec fn same_media(a: EntityModel, b: EntityModel) -> bool {
    &&& a.path == b.path
    &&& a.mime == b.mime
    &&& a.total == b.total
    &&& !contradict(a.validator, b.validator)
}

/// Media that a platform offers for a track.
pub struct PreviewMedia {
    pub url: String,
    pub actual_quality: Option<Quality>,
    pub mime: Option<String>,
    pub alternatives: Vec<String>,
}

/// The state of one attempt. All requests of the attempt share it.
pub struct PreviewContext {
    /// The number of the attempt; it opens nothing.
    pub attempt_id: String,
    pub actual_quality: Option<Quality>,
    pub mime: Option<String>,
    pub alternatives: Vec<String>,
    pub account_epoch: u64,
    pub retries: u8,
    pub rate_limited: bool,
    pub entity: Option<MediaEntity>,
}

#[verifier::ext_equal]
pub struct ContextModel {
    pub attempt_id: Seq<char>,
    pub actual_quality: Option<Quality>,
    pub mime: Option<Seq<char>>,
    pub alternatives: Seq<Seq<char>>,
    pub account_epoch: u64,
    pub retries: u8,
    pub rate_limited: bool,
    pub entity: Option<EntityModel>,
}

pub open spec fn entity_view(e: Option<MediaEntity>) -> Option<EntityModel> {
    match e {
        Some(e) => Some(e@),
        None => None,
    }
}

impl View for PreviewContext {
    type V = ContextModel;

    open spec fn view(&self) -> ContextModel {
        ContextModel {
            attempt_id: self.attempt_id@,
            actual_quality: self.actual_quality,
            mime: text_of(self.mime),
            alternatives: texts(self.alternatives@),
            account_epoch: self.account_epoch,
            retries: self.retries,
            rate_limited: self.rate_limited,
            entity: entity_view(self.entity),
        }
    }
}

/// The quality below another one; none below the lowest, and none where it is not known.
pub open spec fn next_lower(quality: Option<Quality>) -> Option<Quality> {
    match quality {
        Some(Quality::Flac) => Some(Quality::Q320),
        Some(Quality::Q320) => Some(Quality::Q128),
        _ => None,
    }
}

/// A new attempt: two retries, nothing seen.
pub open spec fn fresh_context(attempt_id: Seq<char>) -> ContextModel {
    ContextModel {
        attempt_id,
        actual_quality: None,
        mime: None,
        alternatives: Seq::empty(),
        account_epoch: 0,
        retries: 2,
        rate_limited: false,
        entity: None,
    }
}

impl Default for PreviewContext {
    fn default() -> (r: Self)
        ensures
            exists|n: u64| r@ == fresh_context(#[trigger] id_text(n)),
    {
        let r = PreviewContext {
            attempt_id: new_id(),
            actual_quality: None,
            mime: None,
            alternatives: Vec::new(),
            account_epoch: 0,
            retries: 2,
            rate_limited: false,
            entity: None,
        };
        assert(r@.alternatives =~= Seq::<Seq<char>>::empty());
        proof {
            let n = choose|n: u64| r.attempt_id@ == id_text(n);
            assert(r@ == fresh_context(id_text(n)));
        }
        r
    }
}

/// The first two texts.
pub open spec fn first_two(v: Seq<Seq<char>>) -> Seq<Seq<char>> {
    if v.len() > 2 {
        v.take(2)
    } else {
        v
    }
}

/// Media that is what the attempt has been playing: the quality that was asked for, no other type,
/// and no other path.
pub open spec fn refresh_fits(
    context: ContextModel,
    requested: Quality,
    actual: Option<Quality>,
    mime: Option<Seq<char>>,
    url: Option<UrlModel>,
) -> bool {
    &&& actual matches Some(q) ==> q == requested
    &&& !contradict(context.mime, mime)
    &&& context.entity matches Some(e) ==> (url matches Some(u) && u.path == e.path)
}

/// The state after one claim of a retry, whether it was granted or not.
pub open spec fn after_claim(context: ContextModel) -> ContextModel {
    if context.retries > 0 {
        ContextModel { retries: (context.retries - 1) as u8, ..context }
    } else {
        context
    }
}

pub open spec fn after_claims(context: ContextModel, claims: nat) -> ContextModel
    decreases claims,
{
    if claims == 0 {
        context
    } else {
        after_claim(after_claims(context, (claims - 1) as nat))
    }
}

impl PreviewContext {
    /// Takes over what a platform offers; of the alternatives, the first two.
    pub fn set_media(&mut self, media: &PreviewMedia)
        ensures
            final(self)@ == (ContextModel {
                actual_quality: media.actual_quality,
                mime: text_of(media.mime),
                alternatives: first_two(texts(media.alternatives@)),
                ..old(self)@
            }),
    {
        let ghost all = texts(media.alternatives@);
        let mut kept: Vec<String> = Vec::new();
        let mut i: usize = 0;
        while i < media.alternatives.len() && i < 2
            invariant
                i <= media.alternatives@.len(),
                i <= 2,
                all == texts(media.alternatives@),
                texts(kept@) == all.take(i as int),
            decreases 2 - i,
        {
            let ghost before = texts(kept@);
            kept.push(media.alternatives[i].clone());
            assert(texts(kept@) =~= before.push(all[i as int]));
            assert(all.take(i + 1) =~= all.take(i as int).push(all[i as int]));
            i += 1;
        }
        assert(all.take(i as int) =~= first_two(all));
        self.actual_quality = media.actual_quality;
        self.mime = clone_text(&media.mime);
        self.alternatives = kept;
    }

    /// Notes that the platform limits requests: nothing is retried any more.
    pub fn mark_rate_limited(&mut self)
        ensures
            final(self)@ == (ContextModel { rate_limited: true, retries: 0, ..old(self)@ }),
    {
        self.rate_limited = true;
        self.retries = 0;
    }

    pub fn is_rate_limited(&self) -> (r: bool)
        ensures
            r == self@.rate_limited,
    {
        self.rate_limited
    }

    pub fn disable_retries(&mut self)
        ensures
            final(self)@ == (ContextModel { retries: 0, ..old(self)@ }),
    {
        self.retries = 0;
    }

    /// Takes one of the retries that are left.
    pub fn claim_retry(&mut self) -> (r: bool)
        ensures
            r == (old(self)@.retries > 0),
            final(self)@ == after_claim(old(self)@),
    {
        if self.retries > 0 {
            self.retries = self.retries - 1;
            true
        } else {
            false
        }
    }

    /// Whether what is played may be kept as this quality.
    pub fn cacheable_as(&self, requested: Quality) -> (r: bool)
        ensures
            r == (self@.actual_quality matches Some(q) ==> q == requested),
    {
        match self.actual_quality {
            Some(actual) => actual == requested,
            None => true,
        }
    }

    /// Whether refreshed media, whose address has been taken apart, is what the attempt has been
    /// playing.
    pub fn refresh_matches(
        &self,
        requested: Quality,
        media: &PreviewMedia,
        url: &Option<ParsedUrl>,
    ) -> (r: bool)
        ensures
            r == refresh_fits(
                self@,
                requested,
                media.actual_quality,
                text_of(media.mime),
                url_view(*url),
            ),
    {
        if let Some(actual) = media.actual_quality {
            if actual != requested {
                return false;
            }
        }
        if let (Some(a), Some(b)) = (&self.mime, &media.mime) {
            if !same(a.as_str(), b.as_str()) {
                return false;
            }
        }
        match &self.entity {
            Some(entity) => match url {
                Some(u) => same(u.path.as_str(), entity.path.as_str()),
                None => false,
            },
            None => true,
        }
    }

    /// Whether refreshed media is what the attempt has been playing.
    pub fn cache_refresh_matches(&self, requested: Quality, media: &PreviewMedia) -> (r: bool)
        ensures
            r == refresh_fits(
                self@,
                requested,
                media.actual_quality,
                text_of(media.mime),
                url_of(media.url@),
            ),
    {
        let url = parse_url(media.url.as_str());
        self.refresh_matches(requested, media, &url)
    }

    /// The next lower quality.
    pub fn lower_quality(&self) -> (r: Option<Quality>)
        ensures
            r == next_lower(self@.actual_quality),
            r == match self@.actual_quality {
                Some(Quality::Flac) => Some(Quality::Q320),
                Some(Quality::Q320) => Some(Quality::Q128),
                _ => None,
            },
    {
        match self.actual_quality {
            Some(Quality::Flac) => Some(Quality::Q320),
            Some(Quality::Q320) => Some(Quality::Q128),
            Some(Quality::Q128) => None,
            None => None,
        }
    }

    /// Compares a reply with the first one. Parts of other media are refused.
    pub fn observe_entity(&mut self, next: MediaEntity) -> (r: bool)
        ensures
            match old(self)@.entity {
                Some(first) => r == same_media(first, next@) && final(self)@ == old(self)@,
                None => r && final(self)@ == (ContextModel { entity: Some(next@), ..old(self)@ }),
            },
    {
        match &self.entity {
            Some(first) => {
                let other: bool = match (&first.validator, &next.validator) {
                    (Some(a), Some(b)) => !same(a.as_str(), b.as_str()),
                    _ => false,
                };
                same(first.path.as_str(), next.path.as_str()) && same(
                    first.mime.as_str(),
                    next.mime.as_str(),
                ) && first.total == next.total && !other
            },
            None => {
                self.entity = Some(next);
                true
            },
        }
    }
}

/// Of any number of claims, no more are granted than the attempt has retries, whichever of its
/// requests makes them; once it is limited, none.
pub proof fn retries_are_finite(context: ContextModel, claims: nat)
    ensures
        after_claims(context, claims).retries == if context.retries >= claims {
            context.retries - claims
        } else {
            0
        },
        claims >= context.retries ==> after_claims(context, claims).retries == 0,
        after_claims(ContextModel { rate_limited: true, retries: 0, ..context }, claims).retries
            == 0,
    decreases claims,
{
    if claims > 0 {
        retries_are_finite(context, (claims - 1) as nat);
    }
}

/// Media that was degraded is not kept under the quality that was asked for.
pub proof fn degraded_media_is_not_relabelled(
    context: ContextModel,
    requested: Quality,
    actual: Quality,
    mime: Option<Seq<char>>,
    url: Option<UrlModel>,
)
    requires
        actual != requested,
    ensures
        !refresh_fits(context, requested, Some(actual), mime, url),
{
}

} // verus!
