//! One search for lyrics, step by step.

use vstd::prelude::*;

use crate::error::{bad, plain, ApiError, ErrorModel};
use crate::lyrics::{
    by_match, candidate_views, engine_label, engines_of, has_lyrics, is_lyric_engine, label_of,
    lists, lyric_timeline_compatible, normalize_engines, parse_prefer, pick_qualified, preferred,
    qualified, query_of, rank_matches, search_text, timeline_agrees, CandidateModel,
    LyricCandidate, LyricsRequest, LyricsRequestModel, LyricsResponse, ResponseModel,
};
use crate::models::{texts, Platform, SongSource};
use crate::text::{join, joined_by, trim, trimmed};

verus! {

/// Lyrics as a platform gives them.
pub struct LyricText {
    pub lrc: String,
    pub word_lrc: String,
    pub translated_lrc: String,
    pub romaji_lrc: String,
    /// The last time mark in milliseconds.
    pub latest_ms: Option<u64>,
}

#[verifier::ext_equal]
pub struct LyricModel {
    pub lrc: Seq<char>,
    pub word_lrc: Seq<char>,
    pub translated_lrc: Seq<char>,
    pub romaji_lrc: Seq<char>,
    pub latest_ms: Option<u64>,
}

impl View for LyricText {
    type V = LyricModel;

    open spec fn view(&self) -> LyricModel {
        LyricModel {
            lrc: self.lrc@,
            word_lrc: self.word_lrc@,
            translated_lrc: self.translated_lrc@,
            romaji_lrc: self.romaji_lrc@,
            latest_ms: self.latest_ms,
        }
    }
}

pub open spec fn lyric_of(t: Option<LyricText>) -> Option<LyricModel> {
    match t {
        Some(t) => Some(t@),
        None => None,
    }
}

pub open spec fn reply_of(
    text: LyricModel,
    platform: Platform,
    key: Seq<char>,
    title: Seq<char>,
    artist: Seq<char>,
    score_bits: u64,
) -> ResponseModel {
    ResponseModel {
        lrc: text.lrc,
        word_lrc: text.word_lrc,
        translated_lrc: text.translated_lrc,
        romaji_lrc: text.romaji_lrc,
        platform,
        key,
        title,
        artist,
        score_bits,
    }
}

fn response_of(
    text: LyricText,
    platform: Platform,
    key: String,
    title: String,
    artist: String,
    score_bits: u64,
) -> (r: LyricsResponse)
    ensures
        r@ == reply_of(text@, platform, key@, title@, artist@, score_bits),
{
    LyricsResponse {
        lrc: text.lrc,
        word_lrc: text.word_lrc,
        translated_lrc: text.translated_lrc,
        romaji_lrc: text.romaji_lrc,
        platform,
        key,
        title,
        artist,
        score_bits,
    }
}

/// The bits of a full match, 1.0.
pub const FULL_MATCH_BITS: u64 = 0x3FF0_0000_0000_0000;

/// The lyrics to keep beside a song that was downloaded: those of its own platform and key, where
/// their time marks fit its length. `artist` is the text of its artists.
pub fn downloaded_lyrics(source: &SongSource, artist: &str, text: Option<LyricText>) -> (r: Option<
    LyricsResponse,
>)
    ensures
        response_view(r) == match lyric_of(text) {
            Some(t) => if timeline_agrees(source@.duration_ms, t.latest_ms) {
                Some(
                    reply_of(
                        t,
                        source@.platform,
                        source@.key,
                        source@.title,
                        artist@,
                        FULL_MATCH_BITS,
                    ),
                )
            } else {
                None
            },
            None => None,
        },
{
    match text {
        Some(t) => {
            if !lyric_timeline_compatible(source.duration_ms, t.latest_ms) {
                return None;
            }
            Some(
                response_of(
                    t,
                    source.platform,
                    source.key.clone(),
                    source.title.clone(),
                    artist.to_owned(),
                    FULL_MATCH_BITS,
                ),
            )
        },
        None => None,
    }
}

#[derive(Clone, Copy, Debug, PartialEq, Eq, Structural)]
pub enum LookupStage {
    /// The track names its song.
    Direct,
    Search,
    Candidates,
}

/// A search for lyrics.
pub struct LyricsLookup {
    pub title: String,
    pub artist: String,
    pub key: String,
    pub duration_ms: Option<u64>,
    pub engines: Vec<Platform>,
    pub prefer: Option<Platform>,
    pub direct: Option<Platform>,
    pub stage: LookupStage,
    pub candidates: Vec<LyricCandidate>,
    pub next: usize,
}

#[verifier::ext_equal]
pub struct LookupModel {
    pub title: Seq<char>,
    pub artist: Seq<char>,
    pub key: Seq<char>,
    pub duration_ms: Option<u64>,
    pub engines: Seq<Platform>,
    pub prefer: Option<Platform>,
    pub direct: Option<Platform>,
    pub stage: LookupStage,
    pub candidates: Seq<CandidateModel>,
    pub next: nat,
}

impl View for LyricsLookup {
    type V = LookupModel;

    open spec fn view(&self) -> LookupModel {
        LookupModel {
            title: self.title@,
            artist: self.artist@,
            key: self.key@,
            duration_ms: self.duration_ms,
            engines: self.engines@,
            prefer: self.prefer,
            direct: self.direct,
            stage: self.stage,
            candidates: candidate_views(self.candidates@),
            next: self.next as nat,
        }
    }
}

/// The platform whose song the track names: the one that is asked for, or, where none is, the one
/// that the track comes from.
pub open spec fn direct_platform(req: LyricsRequestModel) -> Option<Platform> {
    let engines = engines_of(req.engines);
    let named = trimmed(req.key).len() > 0;
    match preferred(req.prefer) {
        Some(forced) => if engines.contains(forced) && req.platform == Some(forced) && named {
            Some(forced)
        } else {
            None
        },
        None => match req.platform {
            Some(p) => if has_lyrics(p) && engines.contains(p) && named {
                Some(p)
            } else {
                None
            },
            None => None,
        },
    }
}

fn find_direct(
    engines: &Vec<Platform>,
    prefer: Option<Platform>,
    platform: Option<Platform>,
    named: bool,
) -> (r: Option<Platform>)
    ensures
        r == (match prefer {
            Some(forced) => if engines@.contains(forced) && platform == Some(forced) && named {
                Some(forced)
            } else {
                None
            },
            None => match platform {
                Some(p) => if has_lyrics(p) && engines@.contains(p) && named {
                    Some(p)
                } else {
                    None
                },
                None => None,
            },
        }),
{
    match (prefer, platform) {
        (Some(forced), Some(p)) => if lists(engines, forced) && p == forced && named {
            Some(forced)
        } else {
            None
        },
        (Some(_), None) => None,
        (None, Some(p)) => if is_lyric_engine(p) && lists(engines, p) && named {
            Some(p)
        } else {
            None
        },
        (None, None) => None,
    }
}

/// What is to be done next.
pub enum LyricsAction {
    /// Fetches the lyrics of a song.
    Fetch { platform: Platform, key: String },
    /// Searches the platforms, eight songs each.
    Search { platforms: Vec<Platform>, query: String },
    /// There are none.
    Fail(ApiError),
}

pub enum LyricsWant {
    Fetch { platform: Platform, key: Seq<char> },
    Search { platforms: Seq<Platform>, query: Seq<char> },
    Fail(ErrorModel),
}

pub open spec fn lyrics_want(a: LyricsAction) -> LyricsWant {
    match a {
        LyricsAction::Fetch { platform, key } => LyricsWant::Fetch { platform, key: key@ },
        LyricsAction::Search { platforms, query } => LyricsWant::Search {
            platforms: platforms@,
            query: query@,
        },
        LyricsAction::Fail(e) => LyricsWant::Fail(e@),
    }
}

pub open spec fn labels_of(platforms: Seq<Platform>) -> Seq<Seq<char>> {
    platforms.map_values(|p: Platform| label_of(p))
}

impl LookupModel {
    pub open spec fn ok(self) -> bool {
        &&& self.stage == LookupStage::Direct ==> self.direct is Some
        &&& self.next <= self.candidates.len()
        &&& self.engines.len() < i64::MAX
    }

    /// The platforms that are searched: the one that is asked for, or all.
    pub open spec fn platforms(self) -> Seq<Platform> {
        match self.prefer {
            Some(forced) => if self.engines.contains(forced) {
                seq![forced]
            } else {
                self.engines
            },
            None => self.engines,
        }
    }

    pub open spec fn want(self) -> LyricsWant {
        match self.stage {
            LookupStage::Direct => LyricsWant::Fetch { platform: self.direct->0, key: self.key },
            LookupStage::Search => LyricsWant::Search {
                platforms: self.platforms(),
                query: search_text(self.title, self.artist),
            },
            LookupStage::Candidates => if self.next < self.candidates.len() {
                LyricsWant::Fetch {
                    platform: self.candidates[self.next as int].platform,
                    key: self.candidates[self.next as int].key,
                }
            } else {
                LyricsWant::Fail(
                    plain(
                        404,
                        "没找到「"@ + self.title + "」的歌词（已查"@ + joined_by(
                            labels_of(self.platforms()),
                            " / "@,
                        ) + "）"@,
                    ),
                )
            },
        }
    }

    /// After lyrics were fetched, or could not be: lyrics that do not fit the track are passed over.
    pub open spec fn after_fetch(self, text: Option<LyricModel>) -> (LookupModel, Option<
        ResponseModel,
    >) {
        let fits = text is Some && timeline_agrees(self.duration_ms, text->0.latest_ms);
        match self.stage {
            LookupStage::Direct => if fits {
                (
                    self,
                    Some(
                        reply_of(
                            text->0,
                            self.direct->0,
                            self.key,
                            self.title,
                            self.artist,
                            FULL_MATCH_BITS,
                        ),
                    ),
                )
            } else {
                (LookupModel { stage: LookupStage::Search, ..self }, None)
            },
            LookupStage::Search => (self, None),
            LookupStage::Candidates => if self.next >= self.candidates.len() {
                (self, None)
            } else {
                let c = self.candidates[self.next as int];
                if fits {
                    (
                        self,
                        Some(
                            reply_of(
                                text->0,
                                c.platform,
                                c.key,
                                c.title,
                                c.artist_text,
                                c.score_bits,
                            ),
                        ),
                    )
                } else {
                    (LookupModel { next: self.next + 1, ..self }, None)
                }
            },
        }
    }

    pub open spec fn after_search(self, found: Seq<CandidateModel>, artists: Seq<Seq<char>>) -> LookupModel {
        LookupModel {
            stage: LookupStage::Candidates,
            candidates: by_match(
                self.engines,
                qualified(self.engines, self.prefer, artists, self.duration_ms, found),
            ),
            next: 0,
            ..self
        }
    }
}

pub open spec fn lookup_of(req: LyricsRequestModel) -> LookupModel {
    LookupModel {
        title: trimmed(req.title),
        artist: trimmed(req.artist),
        key: trimmed(req.key),
        duration_ms: req.duration_ms,
        engines: engines_of(req.engines),
        prefer: preferred(req.prefer),
        direct: direct_platform(req),
        stage: if direct_platform(req) is Some {
            LookupStage::Direct
        } else {
            LookupStage::Search
        },
        candidates: Seq::empty(),
        next: 0,
    }
}

pub open spec fn response_view(r: Option<LyricsResponse>) -> Option<ResponseModel> {
    match r {
        Some(r) => Some(r@),
        None => None,
    }
}

/// The song that a platform names takes no more than three places.
pub proof fn lemma_few_engines(engines: Seq<Platform>)
    ensures
        crate::lyrics::lyric_engines(engines).len() <= 3,
        crate::lyrics::lyric_engines(engines).no_duplicates(),
        forall|i: int|
            0 <= i < crate::lyrics::lyric_engines(engines).len() ==> has_lyrics(
                #[trigger] crate::lyrics::lyric_engines(engines)[i],
            ),
        engines_of(engines).len() <= 3,
    decreases engines.len(),
{
    let list = crate::lyrics::lyric_engines(engines);
    if engines.len() > 0 {
        lemma_few_engines(engines.drop_last());
        let before = crate::lyrics::lyric_engines(engines.drop_last());
        if list.len() > 3 {
            let a = before[0];
            let b = before[1];
            let c = before[2];
            assert(a != b && b != c && a != c);
            assert(has_lyrics(a) && has_lyrics(b) && has_lyrics(c));
            assert(before.contains(a) && before.contains(b) && before.contains(c));
            assert(engines.last() == a || engines.last() == b || engines.last() == c);
        }
    }
}

impl LyricsLookup {
    /// Begins a search. Without a title there is nothing to look for.
    pub fn begin(req: &LyricsRequest) -> (r: Result<Self, ApiError>)
        ensures
            match r {
                Ok(run) => trimmed(req@.title).len() > 0 && run@ == lookup_of(req@) && run@.ok(),
                Err(e) => trimmed(req@.title).len() == 0 && e@ == bad("缺少曲名，无法搜歌词"@),
            },
    {
        let title = trim(req.title.as_str());
        if title.as_str().is_empty() {
            return Err(ApiError::bad_request("缺少曲名，无法搜歌词".to_owned()));
        }
        let key = trim(req.key.as_str());
        let engines = normalize_engines(&req.engines);
        proof {
            lemma_few_engines(req@.engines);
        }
        let prefer = parse_prefer(req.prefer.as_str());
        let direct = find_direct(&engines, prefer, req.platform, !key.as_str().is_empty());
        let stage = if direct.is_some() {
            LookupStage::Direct
        } else {
            LookupStage::Search
        };
        let run = LyricsLookup {
            title,
            artist: trim(req.artist.as_str()),
            key,
            duration_ms: req.duration_ms,
            engines,
            prefer,
            direct,
            stage,
            candidates: Vec::new(),
            next: 0,
        };
        assert(run@.candidates =~= Seq::<CandidateModel>::empty());
        Ok(run)
    }

    fn search_platforms(&self) -> (r: Vec<Platform>)
        ensures
            r@ == self@.platforms(),
    {
        if let Some(forced) = self.prefer {
            if lists(&self.engines, forced) {
                let mut one: Vec<Platform> = Vec::new();
                one.push(forced);
                assert(one@ =~= seq![forced]);
                return one;
            }
        }
        let mut all: Vec<Platform> = Vec::new();
        let mut i: usize = 0;
        while i < self.engines.len()
            invariant
                i <= self.engines@.len(),
                all@ == self.engines@.take(i as int),
            decreases self.engines@.len() - i,
        {
            all.push(self.engines[i]);
            i += 1;
            assert(all@ =~= self.engines@.take(i as int));
        }
        assert(all@ =~= self.engines@);
        all
    }

    fn not_found(&self) -> (r: ApiError)
        ensures
            r@ == plain(
                404,
                "没找到「"@ + self@.title + "」的歌词（已查"@ + joined_by(
                    labels_of(self@.platforms()),
                    " / "@,
                ) + "）"@,
            ),
    {
        let platforms = self.search_platforms();
        let ghost model = labels_of(platforms@);
        let mut labels: Vec<String> = Vec::new();
        let mut i: usize = 0;
        while i < platforms.len()
            invariant
                i <= platforms@.len(),
                model == labels_of(platforms@),
                texts(labels@) == model.take(i as int),
            decreases platforms@.len() - i,
        {
            let ghost before = texts(labels@);
            labels.push(engine_label(platforms[i]).to_owned());
            assert(texts(labels@) =~= before.push(model[i as int]));
            i += 1;
            assert(texts(labels@) =~= model.take(i as int));
        }
        assert(texts(labels@) =~= model);
        let list = join(&labels, " / ");
        let mut detail = "没找到「".to_owned();
        detail.append(self.title.as_str());
        detail.append("」的歌词（已查");
        detail.append(list.as_str());
        detail.append("）");
        ApiError::not_found(detail)
    }

    /// What is to be done next.
    pub fn action(&self) -> (r: LyricsAction)
        requires
            self@.ok(),
        ensures
            lyrics_want(r) == self@.want(),
    {
        match self.stage {
            LookupStage::Direct => match self.direct {
                Some(platform) => LyricsAction::Fetch { platform, key: self.key.clone() },
                None => LyricsAction::Fail(self.not_found()),
            },
            LookupStage::Search => LyricsAction::Search {
                platforms: self.search_platforms(),
                query: query_of(self.title.as_str(), self.artist.as_str()),
            },
            LookupStage::Candidates => {
                assert(self@.candidates.len() == self.candidates@.len());
                if self.next < self.candidates.len() {
                    let c = &self.candidates[self.next];
                    assert(self@.candidates[self.next as int] == c@);
                    LyricsAction::Fetch { platform: c.platform, key: c.key.clone() }
                } else {
                    LyricsAction::Fail(self.not_found())
                }
            },
        }
    }

    /// Lyrics were fetched, or could not be. Ends the search where they fit.
    pub fn fetched(&mut self, text: Option<LyricText>) -> (r: Option<LyricsResponse>)
        requires
            old(self)@.ok(),
        ensures
            (final(self)@, response_view(r)) == old(self)@.after_fetch(lyric_of(text)),
            final(self)@.ok(),
    {
        let fits: bool = match &text {
            Some(t) => lyric_timeline_compatible(self.duration_ms, t.latest_ms),
            None => false,
        };
        match self.stage {
            LookupStage::Direct => {
                if fits {
                    if let (Some(t), Some(platform)) = (text, self.direct) {
                        return Some(
                            response_of(
                                t,
                                platform,
                                self.key.clone(),
                                self.title.clone(),
                                self.artist.clone(),
                                FULL_MATCH_BITS,
                            ),
                        );
                    }
                }
                self.stage = LookupStage::Search;
                None
            },
            LookupStage::Search => None,
            LookupStage::Candidates => {
                assert(self@.candidates.len() == self.candidates@.len());
                let count: usize = self.candidates.len();
                if self.next >= count {
                    return None;
                }
                let c = &self.candidates[self.next];
                assert(self@.candidates[self.next as int] == c@);
                if fits {
                    if let Some(t) = text {
                        return Some(
                            response_of(
                                t,
                                c.platform,
                                c.key.clone(),
                                c.title.clone(),
                                c.artist_text.clone(),
                                c.score_bits,
                            ),
                        );
                    }
                }
                assert(self.next < count);
                self.next = self.next + 1;
                None
            },
        }
    }

    /// The search has found these songs. `artists` holds the names in the request, ready to be
    /// compared.
    pub fn searched(&mut self, found: &Vec<LyricCandidate>, artists: &Vec<String>)
        requires
            old(self)@.ok(),
        ensures
            final(self)@ == old(self)@.after_search(candidate_views(found@), texts(artists@)),
            final(self)@.ok(),
    {
        let picked = pick_qualified(&self.engines, self.prefer, artists, self.duration_ms, found);
        self.candidates = rank_matches(&self.engines, &picked);
        self.stage = LookupStage::Candidates;
        self.next = 0;
    }
}

/// Lyrics that are handed out fit the track: their last mark does not lie far behind its end.
pub proof fn lyrics_fit_the_track(run: LookupModel, text: Option<LyricModel>)
    requires
        run.ok(),
    ensures
        run.after_fetch(text).1 is Some ==> text is Some && timeline_agrees(
            run.duration_ms,
            text->0.latest_ms,
        ),
{
}

/// A platform that is asked for is the only one that is asked.
pub proof fn a_forced_platform_is_the_only_one(req: LyricsRequestModel)
    requires
        preferred(req.prefer) is Some,
        engines_of(req.engines).contains(preferred(req.prefer)->0),
    ensures
        lookup_of(req).platforms() == seq![preferred(req.prefer)->0],
        lookup_of(req).direct is Some ==> lookup_of(req).direct == preferred(req.prefer),
{
}

/// Every fetch brings the search closer to its end: a song whose lyrics do not fit is not tried
/// again.
pub proof fn a_lookup_always_ends(run: LookupModel, text: Option<LyricModel>)
    requires
        run.ok(),
        run.stage == LookupStage::Candidates,
        run.next < run.candidates.len(),
    ensures
        run.after_fetch(text).1 is Some || run.after_fetch(text).0.next == run.next + 1,
        run.after_fetch(text).0.candidates == run.candidates,
{
}

} // verus!
