//! The music catalogue: tracks found under the music directory, keyed by
//! their path relative to it.

use vstd::prelude::*;
use vstd::utf8::{
    decode_utf8, decode_utf8_encode_utf8, encode_utf8, encode_utf8_decode_utf8, encode_utf8_valid_utf8,
    is_char_boundary, valid_utf8_split,
};
use crate::text::has_prefix;

verus! {

/// A playable track.
pub struct MusicInfo {
    file: String,
    pub path: String,
    pub mime: String,
}

/// The content of a [`MusicInfo`].
pub struct MusicInfoView {
    /// The file name without its last four bytes (the extension `.mp3`, `.ogg`, ...).
    pub file: Seq<char>,
    /// The path relative to the music directory.
    pub path: Seq<char>,
    /// The media type guessed from the file name.
    pub mime: Seq<char>,
}

impl View for MusicInfo {
    type V = MusicInfoView;

    closed spec fn view(&self) -> MusicInfoView {
        MusicInfoView { file: self.file@, path: self.path@, mime: self.mime@ }
    }
}

impl MusicInfo {
    pub fn new(file: String, path: String, mime: String) -> (res: MusicInfo)
        ensures
            res@ == (MusicInfoView { file: file@, path: path@, mime: mime@ }),
    {
        MusicInfo { file, path, mime }
    }

    /// The file name without its extension.
    pub fn file(&self) -> (res: &String)
        ensures
            res@ == self@.file,
    {
        &self.file
    }

    pub fn path(&self) -> (res: &String)
        ensures
            res@ == self@.path,
    {
        &self.path
    }

    pub fn mime(&self) -> (res: &String)
        ensures
            res@ == self@.mime,
    {
        &self.mime
    }
}

/// No two tracks share a path.
pub open spec fn paths_unique(s: Seq<MusicInfoView>) -> bool {
    forall|i: int, j: int|
        0 <= i < s.len() && 0 <= j < s.len() && i != j ==> #[trigger] s[i].path != #[trigger] s[j].path
}

/// The map from path to track that inserting the tracks in order builds.
pub open spec fn map_of(s: Seq<MusicInfoView>) -> Map<Seq<char>, MusicInfoView>
    decreases s.len(),
{
    if s.len() == 0 {
        Map::empty()
    } else {
        map_of(s.drop_last()).insert(s.last().path, s.last())
    }
}

/// With distinct paths, the map holds exactly the tracks, each under its path.
pub proof fn lemma_map_of(s: Seq<MusicInfoView>)
    requires
        paths_unique(s),
    ensures
        forall|k: Seq<char>|
            #[trigger] map_of(s).contains_key(k) <==> exists|i: int| 0 <= i < s.len() && s[i].path == k,
        forall|i: int| 0 <= i < s.len() ==> #[trigger] map_of(s)[s[i].path] == s[i],
    decreases s.len(),
{
    if s.len() > 0 {
        let t = s.drop_last();
        assert(paths_unique(t)) by {
            assert forall|i: int, j: int|
                0 <= i < t.len() && 0 <= j < t.len() && i != j implies #[trigger] t[i].path
                != #[trigger] t[j].path by {
                assert(t[i] == s[i] && t[j] == s[j]);
            }
        }
        lemma_map_of(t);
        let last = s[s.len() - 1];
        assert(s.last() == last);
        assert(map_of(s) == map_of(t).insert(last.path, last));
        assert forall|k: Seq<char>| #[trigger]
            map_of(s).contains_key(k) <==> exists|i: int| 0 <= i < s.len() && s[i].path == k by {
            if k == last.path {
                assert(s[s.len() - 1].path == k);
            }
            if map_of(s).contains_key(k) && k != s.last().path {
                assert(map_of(t).contains_key(k));
                let i = choose|i: int| 0 <= i < t.len() && t[i].path == k;
                assert(s[i].path == k);
            }
            if exists|i: int| 0 <= i < s.len() && s[i].path == k {
                let i = choose|i: int| 0 <= i < s.len() && s[i].path == k;
                if i < s.len() - 1 {
                    assert(t[i].path == k);
                }
            }
        }
        assert forall|i: int| 0 <= i < s.len() implies #[trigger] map_of(s)[s[i].path] == s[i] by {
            if i < s.len() - 1 {
                assert(t[i] == s[i]);
                assert(s[i].path != s[s.len() - 1].path);
            }
        }
    }
}

/// The catalogue of tracks, one per path. The tracks are kept in a `Vec` with
/// distinct paths, compared by their text: a `HashMap` keyed by `String` gives
/// no specification of its contents to prove lookups and updates against.
pub struct TrackMap {
    tracks: Vec<MusicInfo>,
}

impl TrackMap {
    /// The tracks, in the order in which they were first inserted.
    pub closed spec fn entries(&self) -> Seq<MusicInfoView> {
        self.tracks@.map_values(|t: MusicInfo| t@)
    }

    /// No two tracks share a path.
    #[verifier::type_invariant]
    spec fn wf(&self) -> bool {
        paths_unique(self.entries())
    }

    /// An empty catalogue.
    pub fn new() -> (res: TrackMap)
        ensures
            res@ == Map::<Seq<char>, MusicInfoView>::empty(),
    {
        let res = TrackMap { tracks: Vec::new() };
        assert(res.entries() =~= Seq::<MusicInfoView>::empty());
        res
    }

    /// The number of tracks.
    pub fn len(&self) -> (n: usize)
        ensures
            n == self@.dom().len(),
    {
        proof {
            use_type_invariant(self);
            self.lemma_len();
        }
        self.tracks.len()
    }

    proof fn lemma_len(&self)
        requires
            self.wf(),
        ensures
            self@.dom().len() == self.tracks@.len(),
            self@.dom().finite(),
        decreases self.tracks@.len(),
    {
        lemma_unique_map_len(self.entries());
    }

    /// The position of the track stored under `path`, if any.
    fn position(&self, path: &String) -> (res: Option<usize>)
        ensures
            res matches Some(i) ==> i < self.tracks@.len() && self.entries()[i as int].path == path@,
            res is None ==> forall|i: int|
                0 <= i < self.tracks@.len() ==> #[trigger] self.entries()[i].path != path@,
    {
        let mut i: usize = 0;
        while i < self.tracks.len()
            invariant
                i <= self.tracks@.len(),
                forall|j: int| 0 <= j < i ==> #[trigger] self.entries()[j].path != path@,
            decreases self.tracks.len() - i,
        {
            if self.tracks[i].path == *path {
                return Some(i);
            }
            i = i + 1;
        }
        None
    }

    /// Stores `info` under its path, replacing the track stored there before.
    pub fn insert(&mut self, info: MusicInfo)
        ensures
            final(self)@ == old(self)@.insert(info@.path, info@),
    {
        proof {
            use_type_invariant(&*self);
        }
        let ghost before = self.entries();
        let ghost v = info@;
        proof {
            lemma_map_of(before);
        }
        let found = self.position(&info.path);
        let mut tracks: Vec<MusicInfo> = Vec::new();
        std::mem::swap(&mut tracks, &mut self.tracks);
        assert(tracks@.map_values(|t: MusicInfo| t@) == before);
        match found {
            Some(i) => {
                tracks.set(i, info);
                let ghost after = tracks@.map_values(|t: MusicInfo| t@);
                assert(after =~= before.update(i as int, v));
                assert(paths_unique(after)) by {
                    assert forall|a: int, b: int|
                        0 <= a < after.len() && 0 <= b < after.len() && a != b implies #[trigger] after[a].path
                        != #[trigger] after[b].path by {
                        if a != i && b != i {
                            assert(after[a] == before[a] && after[b] == before[b]);
                        } else if a == i {
                            assert(after[b] == before[b]);
                        } else {
                            assert(after[a] == before[a]);
                        }
                    }
                }
                proof {
                    lemma_map_of(after);
                }
                assert(map_of(after) =~= map_of(before).insert(v.path, v)) by {
                    assert forall|k: Seq<char>| #[trigger]
                        map_of(after).contains_key(k) == map_of(before).insert(v.path, v).contains_key(k)
                        by {
                        if map_of(before).contains_key(k) {
                            let j = choose|j: int| 0 <= j < before.len() && before[j].path == k;
                            assert(after[j].path == k);
                        }
                        if map_of(after).contains_key(k) {
                            let j = choose|j: int| 0 <= j < after.len() && after[j].path == k;
                            if j != i {
                                assert(before[j].path == k);
                            }
                        }
                    }
                    assert forall|k: Seq<char>| #[trigger] map_of(after).contains_key(k) implies map_of(
                        after,
                    )[k] == map_of(before).insert(v.path, v)[k] by {
                        let j = choose|j: int| 0 <= j < after.len() && after[j].path == k;
                        assert(map_of(after)[after[j].path] == after[j]);
                        if j != i {
                            assert(after[j] == before[j]);
                            assert(map_of(before)[before[j].path] == before[j]);
                        }
                    }
                }
            },
            None => {
                tracks.push(info);
                let ghost after = tracks@.map_values(|t: MusicInfo| t@);
                assert(after =~= before.push(v));
                assert(after.drop_last() =~= before);
                assert(paths_unique(after)) by {
                    assert forall|a: int, b: int|
                        0 <= a < after.len() && 0 <= b < after.len() && a != b implies #[trigger] after[a].path
                        != #[trigger] after[b].path by {
                        if a < before.len() && b < before.len() {
                            assert(after[a] == before[a] && after[b] == before[b]);
                        } else if a < before.len() {
                            assert(after[a] == before[a]);
                        } else {
                            assert(after[b] == before[b]);
                        }
                    }
                }
            },
        }
        self.tracks = tracks;
    }

    /// The track stored under `path`, if any.
    pub fn get(&self, path: &str) -> (res: Option<&MusicInfo>)
        ensures
            match res {
                Some(t) => self@.contains_key(path@) && self@[path@] == t@,
                None => !self@.contains_key(path@),
            },
    {
        proof {
            use_type_invariant(self);
            lemma_map_of(self.entries());
        }
        let key = String::from_str(path);
        match self.position(&key) {
            Some(i) => {
                assert(self.entries()[i as int] == self.tracks@[i as int]@);
                Some(&self.tracks[i])
            },
            None => {
                proof {
                    if self@.contains_key(path@) {
                        let j = choose|j: int|
                            0 <= j < self.entries().len() && self.entries()[j].path == path@;
                        assert(self.entries()[j].path != path@);
                    }
                }
                None
            },
        }
    }

    /// Every track once.
    pub fn tracks(&self) -> (res: &Vec<MusicInfo>)
        ensures
            paths_unique(res@.map_values(|t: MusicInfo| t@)),
            forall|i: int| 0 <= i < res@.len() ==> #[trigger] self@[res@[i]@.path] == res@[i]@,
            forall|i: int| 0 <= i < res@.len() ==> self@.contains_key(#[trigger] res@[i]@.path),
            forall|k: Seq<char>| #[trigger]
                self@.contains_key(k) ==> exists|i: int| 0 <= i < res@.len() && res@[i]@.path == k,
    {
        proof {
            use_type_invariant(self);
            lemma_map_of(self.entries());
            assert forall|i: int| 0 <= i < self.tracks@.len() implies #[trigger] self@[self.tracks@[i]@.path]
                == self.tracks@[i]@ && self@.contains_key(self.tracks@[i]@.path) by {
                assert(self.entries()[i] == self.tracks@[i]@);
                assert(map_of(self.entries()).contains_key(self.entries()[i].path));
            }
            assert forall|i: int| 0 <= i < self.tracks@.len() implies self@.contains_key(
                #[trigger] self.tracks@[i]@.path,
            ) by {
                assert(self.entries()[i] == self.tracks@[i]@);
                assert(map_of(self.entries()).contains_key(self.entries()[i].path));
            }
            assert forall|k: Seq<char>| #[trigger] self@.contains_key(k) implies exists|i: int|
                0 <= i < self.tracks@.len() && self.tracks@[i]@.path == k by {
                let i = choose|i: int| 0 <= i < self.entries().len() && self.entries()[i].path == k;
                assert(self.entries()[i] == self.tracks@[i]@);
            }
        }
        &self.tracks
    }
}

impl View for TrackMap {
    type V = Map<Seq<char>, MusicInfoView>;

    closed spec fn view(&self) -> Map<Seq<char>, MusicInfoView> {
        map_of(self.entries())
    }
}

/// A map built from tracks with distinct paths has one key per track.
pub proof fn lemma_unique_map_len(s: Seq<MusicInfoView>)
    requires
        paths_unique(s),
    ensures
        map_of(s).dom().finite(),
        map_of(s).dom().len() == s.len(),
    decreases s.len(),
{
    if s.len() > 0 {
        let t = s.drop_last();
        assert(paths_unique(t)) by {
            assert forall|i: int, j: int|
                0 <= i < t.len() && 0 <= j < t.len() && i != j implies #[trigger] t[i].path
                != #[trigger] t[j].path by {
                assert(t[i] == s[i] && t[j] == s[j]);
            }
        }
        lemma_unique_map_len(t);
        lemma_map_of(t);
        if map_of(t).contains_key(s.last().path) {
            let i = choose|i: int| 0 <= i < t.len() && t[i].path == s.last().path;
            assert(s[i].path == s[s.len() - 1].path);
        }
    }
}

/// A track read back after it was stored is the track stored; the other
/// paths keep what they held. `after` is the catalogue that
/// [`TrackMap::insert`] leaves when it stores `info` in `before`, and
/// [`TrackMap::get`] reads from its view.
pub proof fn law_get_after_insert(before: TrackMap, after: TrackMap, info: MusicInfo, other: Seq<char>)
    requires
        after@ == before@.insert(info@.path, info@),
        other != info@.path,
    ensures
        after@.contains_key(info@.path),
        after@[info@.path] == info@,
        after@.contains_key(other) == before@.contains_key(other),
        before@.contains_key(other) ==> after@[other] == before@[other],
{
}

/// The server's shared state: where the music lives and what was found there.
pub struct AppState {
    pub music_dir: String,
    pub tracks: TrackMap,
}

impl AppState {
    pub fn new(music_dir: String, tracks: TrackMap) -> (res: AppState)
        ensures
            res.music_dir == music_dir,
            res.tracks == tracks,
    {
        AppState { music_dir, tracks }
    }
}

/// A regular file found under the music directory.
pub struct FileEntry {
    /// Its full path, from which the media type is guessed.
    pub full_path: String,
    /// Its path relative to the music directory (the full path where it is not under it).
    pub relative_path: String,
    /// Its file name, where that is valid UTF-8.
    pub file_name: Option<String>,
}

/// `audio/`
pub open spec fn audio_prefix() -> Seq<u8> {
    seq![97u8, 117u8, 100u8, 105u8, 111u8, 47u8]
}

/// A media type of the `audio/` family.
pub open spec fn is_audio(mime: Seq<char>) -> bool {
    has_prefix(encode_utf8(mime), audio_prefix())
}

/// A file name that can lose its last four bytes (`String::truncate` panics otherwise).
pub open spec fn name_truncatable(name: Seq<char>) -> bool {
    let b = encode_utf8(name);
    b.len() >= 4 && is_char_boundary(b, b.len() - 4)
}

/// A file name without its last four bytes.
pub open spec fn truncated_name(name: Seq<char>) -> Seq<char> {
    let b = encode_utf8(name);
    decode_utf8(b.subrange(0, b.len() - 4))
}

/// The track that a file with media type `mime` gives: audio files with a
/// readable name become tracks, named without their extension.
pub open spec fn spec_track(entry: FileEntry, mime: Seq<char>) -> Option<MusicInfoView> {
    if is_audio(mime) {
        match entry.file_name {
            Some(name) => Some(
                MusicInfoView {
                    file: truncated_name(name@),
                    path: entry.relative_path@,
                    mime,
                },
            ),
            None => None,
        }
    } else {
        None
    }
}

/// The catalogue stops on this file: it is audio but its name is too short to
/// lose four bytes, or loses them in the middle of a character.
pub open spec fn stops_catalogue(entry: FileEntry, mime: Seq<char>) -> bool {
    is_audio(mime) && match entry.file_name {
        Some(name) => !name_truncatable(name@),
        None => false,
    }
}

/// The catalogue that scanning the files in order builds, each with its media type.
pub open spec fn spec_catalogue(entries: Seq<FileEntry>, mimes: Seq<Seq<char>>) -> Map<
    Seq<char>,
    MusicInfoView,
>
    decreases entries.len(),
{
    if entries.len() == 0 || mimes.len() == 0 {
        Map::empty()
    } else {
        let before = spec_catalogue(entries.drop_last(), mimes.drop_last());
        match spec_track(entries.last(), mimes.last()) {
            Some(t) => before.insert(t.path, t),
            None => before,
        }
    }
}

/// The media types of the files, in order.
pub open spec fn mimes_of(entries: Seq<FileEntry>) -> Seq<Seq<char>> {
    Seq::new(entries.len(), |i: int| guessed_mime(entries[i].full_path@))
}

/// Whether a media type is of the `audio/` family.
pub fn mime_is_audio(mime: &str) -> (res: bool)
    ensures
        res == is_audio(mime@),
{
    let b = mime.as_bytes();
    if b.len() < 6 {
        return false;
    }
    let r = b[0] == 97 && b[1] == 117 && b[2] == 100 && b[3] == 105 && b[4] == 111 && b[5] == 47;
    assert(r == (b@.subrange(0, 6) =~= audio_prefix()));
    r
}

/// Whether a file name can lose its last four bytes.
pub fn can_truncate_name(name: &str) -> (res: bool)
    ensures
        res == name_truncatable(name@),
{
    let n = name.as_bytes().len();
    n >= 4 && name.is_char_boundary(n - 4)
}

/// The file name without its last four bytes.
fn truncate_name(name: &str) -> (res: String)
    requires
        name_truncatable(name@),
    ensures
        res@ == truncated_name(name@),
{
    let n = name.as_bytes().len();
    let (head, _tail) = name.split_at(n - 4);
    let res = head.to_owned();
    proof {
        encode_utf8_decode_utf8(head@);
    }
    res
}

/// The track that a file gives, its media type being `mime`.
pub fn track_for(entry: &FileEntry, mime: &String) -> (res: Option<MusicInfo>)
    requires
        !stops_catalogue(*entry, mime@),
    ensures
        match res {
            Some(t) => spec_track(*entry, mime@) == Some(t@),
            None => spec_track(*entry, mime@) is None,
        },
{
    if !mime_is_audio(mime.as_str()) {
        return None;
    }
    match &entry.file_name {
        None => None,
        Some(name) => {
            let file = truncate_name(name.as_str());
            Some(MusicInfo { file, path: entry.relative_path.clone(), mime: mime.clone() })
        },
    }
}

/// Builds the catalogue from the files found and their media types.
pub fn build_catalogue(entries: &Vec<FileEntry>, mimes: &Vec<String>) -> (res: TrackMap)
    requires
        entries@.len() == mimes@.len(),
        forall|i: int| 0 <= i < entries@.len() ==> !stops_catalogue(entries@[i], #[trigger] mimes@[i]@),
    ensures
        res@ == spec_catalogue(entries@, mimes@.map_values(|m: String| m@)),
{
    let ghost ms = mimes@.map_values(|m: String| m@);
    let mut map = TrackMap::new();
    let mut i: usize = 0;
    assert(entries@.take(0) =~= Seq::<FileEntry>::empty());
    while i < entries.len()
        invariant
            entries@.len() == mimes@.len(),
            ms == mimes@.map_values(|m: String| m@),
            forall|j: int| 0 <= j < entries@.len() ==> !stops_catalogue(entries@[j], #[trigger] mimes@[j]@),
            i <= entries@.len(),
            map@ == spec_catalogue(entries@.take(i as int), ms.take(i as int)),
        decreases entries.len() - i,
    {
        let t = track_for(&entries[i], &mimes[i]);
        let ghost before = map@;
        assert(entries@.take(i + 1).drop_last() =~= entries@.take(i as int));
        assert(ms.take(i + 1).drop_last() =~= ms.take(i as int));
        assert(ms.take(i + 1).last() == mimes@[i as int]@);
        assert(entries@.take(i + 1).last() == entries@[i as int]);
        match t {
            Some(info) => {
                map.insert(info);
            },
            None => {},
        }
        i = i + 1;
    }
    assert(entries@.take(i as int) =~= entries@);
    assert(ms.take(i as int) =~= ms);
    map
}

/// The media type that `mime_guess` guesses for a path (`from_path`, falling
/// back to `text/plain`).
pub uninterp spec fn guessed_mime(path: Seq<char>) -> Seq<char>;

/// Calls `mime_guess::from_path(path).first_or_text_plain()` and gives back the
/// media type as text. The guess reads only the path's extension; its result is
/// named `guessed_mime`.
#[verifier::external_body]
fn guess_mime(path: &str) -> (res: String)
    ensures
        res@ == guessed_mime(path@),
{
    mime_guess::from_path(path).first_or_text_plain().to_string()
}

/// Builds the catalogue of the files found under the music directory, guessing
/// each one's media type from its path. `None` when a file would stop the scan
/// (see [`stops_catalogue`]).
pub fn catalogue_tracks(entries: &Vec<FileEntry>) -> (res: Option<TrackMap>)
    ensures
        res is None <==> exists|i: int|
            0 <= i < entries@.len() && #[trigger] stops_catalogue(
                entries@[i],
                guessed_mime(entries@[i].full_path@),
            ),
        res matches Some(m) ==> m@ == spec_catalogue(entries@, mimes_of(entries@)),
{
    let mut mimes: Vec<String> = Vec::new();
    let mut i: usize = 0;
    while i < entries.len()
        invariant
            i <= entries@.len(),
            mimes@.len() == i,
            forall|j: int| 0 <= j < i ==> (#[trigger] mimes@[j])@ == guessed_mime(entries@[j].full_path@),
            forall|j: int| 0 <= j < i ==> !stops_catalogue(entries@[j], #[trigger] mimes@[j]@),
        decreases entries.len() - i,
    {
        let entry = &entries[i];
        let mime = guess_mime(entry.full_path.as_str());
        let stops = match &entry.file_name {
            Some(name) => mime_is_audio(mime.as_str()) && !can_truncate_name(name.as_str()),
            None => false,
        };
        if stops {
            assert(stops_catalogue(entries@[i as int], guessed_mime(entries@[i as int].full_path@)));
            return None;
        }
        mimes.push(mime);
        i = i + 1;
    }
    assert(mimes@.map_values(|m: String| m@) =~= mimes_of(entries@));
    proof {
        assert forall|j: int| 0 <= j < entries@.len() implies !#[trigger] stops_catalogue(
            entries@[j],
            guessed_mime(entries@[j].full_path@),
        ) by {
            assert(mimes@[j]@ == guessed_mime(entries@[j].full_path@));
        }
    }
    Some(build_catalogue(entries, &mimes))
}

/// An audio file with a readable name always gives a track, wherever it lies
/// under the music directory: stored under its relative path, with its media
/// type, and named by its file name without the last four bytes. Any other
/// file gives none.
pub proof fn law_audio_file_gives_track(entry: FileEntry, mime: Seq<char>)
    ensures
        is_audio(mime) && entry.file_name is Some ==> (spec_track(entry, mime) matches Some(t) && {
            let name = entry.file_name.unwrap()@;
            let b = encode_utf8(name);
            &&& t.path == entry.relative_path@
            &&& t.mime == mime
            &&& (name_truncatable(name) ==> encode_utf8(t.file) == b.subrange(0, b.len() - 4))
        }),
        !is_audio(mime) || entry.file_name is None ==> spec_track(entry, mime) is None,
{
    if is_audio(mime) && entry.file_name is Some {
        let name = entry.file_name.unwrap()@;
        let b = encode_utf8(name);
        if name_truncatable(name) {
            encode_utf8_valid_utf8(name);
            valid_utf8_split(b, b.len() - 4);
            decode_utf8_encode_utf8(b.subrange(0, b.len() - 4));
        }
    }
}

/// A file that gives a track is in the catalogue, under its relative path and
/// with that track, unless a later file has the same relative path.
pub proof fn law_track_is_catalogued(entries: Seq<FileEntry>, mimes: Seq<Seq<char>>, i: int)
    requires
        entries.len() == mimes.len(),
        0 <= i < entries.len(),
        spec_track(entries[i], mimes[i]) is Some,
        forall|j: int| i < j < entries.len() ==> #[trigger] entries[j].relative_path@ != entries[i].relative_path@,
    ensures
        spec_catalogue(entries, mimes).contains_key(entries[i].relative_path@),
        spec_catalogue(entries, mimes)[entries[i].relative_path@] == spec_track(entries[i], mimes[i]).unwrap(),
    decreases entries.len(),
{
    let n = entries.len();
    if i < n - 1 {
        let e2 = entries.drop_last();
        let m2 = mimes.drop_last();
        assert(e2[i] == entries[i] && m2[i] == mimes[i]);
        assert forall|j: int| i < j < e2.len() implies #[trigger] e2[j].relative_path@ != e2[i].relative_path@ by {
            assert(e2[j] == entries[j]);
        }
        law_track_is_catalogued(e2, m2, i);
        assert(entries.last() == entries[n - 1]);
        match spec_track(entries.last(), mimes.last()) {
            Some(t) => {
                assert(t.path == entries[n - 1].relative_path@);
            },
            None => {},
        }
    } else {
        assert(entries.last() == entries[i] && mimes.last() == mimes[i]);
    }
}

/// Every track in a catalogue is an audio file, stored under its own path.
pub proof fn law_catalogue_holds_audio(entries: Seq<FileEntry>, mimes: Seq<Seq<char>>)
    ensures
        forall|k: Seq<char>| #[trigger]
            spec_catalogue(entries, mimes).contains_key(k) ==> is_audio(
                spec_catalogue(entries, mimes)[k].mime,
            ) && spec_catalogue(entries, mimes)[k].path == k,
    decreases entries.len(),
{
    if entries.len() > 0 && mimes.len() > 0 {
        let before = spec_catalogue(entries.drop_last(), mimes.drop_last());
        law_catalogue_holds_audio(entries.drop_last(), mimes.drop_last());
        assert forall|k: Seq<char>| #[trigger]
            spec_catalogue(entries, mimes).contains_key(k) implies is_audio(
                spec_catalogue(entries, mimes)[k].mime,
            ) && spec_catalogue(entries, mimes)[k].path == k by {
            match spec_track(entries.last(), mimes.last()) {
                Some(t) => {
                    if k != t.path {
                        assert(before.contains_key(k));
                    }
                },
                None => {
                    assert(before.contains_key(k));
                },
            }
        }
    }
}

/// A file that gives a track is found in the catalogue under its relative path,
/// unless a later file has the same relative path.
pub proof fn law_last_track_is_listed(entries: Seq<FileEntry>, mimes: Seq<Seq<char>>)
    requires
        entries.len() > 0,
        entries.len() == mimes.len(),
        spec_track(entries.last(), mimes.last()) is Some,
    ensures
        spec_catalogue(entries, mimes).contains_key(entries.last().relative_path@),
        spec_catalogue(entries, mimes)[entries.last().relative_path@] == spec_track(
            entries.last(),
            mimes.last(),
        ).unwrap(),
{
}

} // verus!
