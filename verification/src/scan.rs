//! Choosing video files among the entries of a directory walk, and the
//! path text reported for them.

use vstd::prelude::*;
use crate::text::push_char;

verus! {

/// One entry met while walking a directory: its path text, its file name
/// (absent for paths such as `..`), and whether it is a regular file.
#[derive(Clone, Debug)]
pub struct DirEntryInfo {
    pub path: String,
    pub file_name: Option<String>,
    pub is_file: bool,
}

/// Index of the last occurrence of `c` in `s`, or -1.
pub open spec fn last_index_of(s: Seq<char>, c: char) -> int
    decreases s.len(),
{
    if s.len() == 0 {
        -1
    } else if s.last() == c {
        s.len() - 1
    } else {
        last_index_of(s.drop_last(), c)
    }
}

/// Extension of a file name: the text after its last '.', provided the
/// name is not `..` and something precedes that dot.
pub open spec fn extension(name: Seq<char>) -> Option<Seq<char>> {
    let d = last_index_of(name, '.');
    if name == seq!['.', '.'] || d <= 0 {
        None
    } else {
        Some(name.subrange(d + 1, name.len() as int))
    }
}

/// Whether an extension reads `mp4`, optionally ignoring ASCII case.
pub open spec fn is_mp4(ext: Seq<char>, ignore_case: bool) -> bool {
    if ignore_case {
        &&& ext.len() == 3
        &&& (ext[0] == 'm' || ext[0] == 'M')
        &&& (ext[1] == 'p' || ext[1] == 'P')
        &&& ext[2] == '4'
    } else {
        ext == seq!['m', 'p', '4']
    }
}

/// Whether a file name carries an `mp4` extension.
pub open spec fn names_mp4(file_name: Option<String>, ignore_case: bool) -> bool {
    match file_name {
        Some(n) => match extension(n@) {
            Some(e) => is_mp4(e, ignore_case),
            None => false,
        },
        None => false,
    }
}

/// The path with every backslash turned into a forward slash.
pub open spec fn forward_slashes(path: Seq<char>) -> Seq<char> {
    path.map_values(|c: char| if c == '\\' { '/' } else { c })
}

proof fn lemma_last_index_bounds(s: Seq<char>, c: char)
    ensures
        -1 <= last_index_of(s, c) < s.len(),
        last_index_of(s, c) >= 0 ==> s[last_index_of(s, c)] == c,
        forall|j: int| last_index_of(s, c) < j < s.len() ==> s[j] != c,
    decreases s.len(),
{
    if s.len() > 0 && s.last() != c {
        let p = s.drop_last();
        lemma_last_index_bounds(p, c);
        assert forall|j: int| last_index_of(s, c) < j < s.len() implies s[j] != c by {
            if j < p.len() {
                assert(p[j] == s[j]);
            }
        }
    }
}

/// Whether `file_name` has the extension `mp4` (exactly, or ignoring ASCII
/// case).
pub fn has_mp4_extension(file_name: &str, ignore_case: bool) -> (res: bool)
    ensures
        res == match extension(file_name@) {
            Some(e) => is_mp4(e, ignore_case),
            None => false,
        },
{
    let n = file_name.unicode_len();
    let mut i: usize = n;
    let mut dot: usize = n;
    while i > 0
        invariant_except_break
            i <= n,
            n == file_name@.len(),
            dot == n,
            forall|j: int| i <= j < n ==> file_name@[j] != '.',
        ensures
            n == file_name@.len(),
            dot <= n,
            dot == n ==> forall|j: int| 0 <= j < n ==> file_name@[j] != '.',
            dot < n ==> file_name@[dot as int] == '.' && forall|j: int|
                dot < j < n ==> file_name@[j] != '.',
        decreases i,
    {
        i = i - 1;
        if file_name.get_char(i) == '.' {
            dot = i;
            break;
        }
    }
    proof {
        lemma_last_index_bounds(file_name@, '.');
        let d = last_index_of(file_name@, '.');
        if dot < n {
            assert(d >= dot as int) by {
                if d < dot {
                    assert(file_name@[dot as int] != '.');
                }
            }
            assert(d == dot as int) by {
                if d > dot {
                    assert(file_name@[d] != '.');
                }
            }
        } else {
            assert(d < 0) by {
                if d >= 0 {
                    assert(file_name@[d] != '.');
                }
            }
        }
    }
    if dot == n || dot == 0 {
        return false;
    }
    if n == 2 {
        // a two-character name whose last dot is not first is `..` only
        // when its first character is a dot too
        if file_name.get_char(0) == '.' {
            assert(file_name@ =~= seq!['.', '.']);
            return false;
        }
    }
    assert(file_name@ != seq!['.', '.']);
    let ghost e = file_name@.subrange(dot + 1, n as int);
    if n - dot - 1 != 3 {
        assert(e.len() != seq!['m', 'p', '4'].len());
        return false;
    }
    let c0 = file_name.get_char(dot + 1);
    let c1 = file_name.get_char(dot + 2);
    let c2 = file_name.get_char(dot + 3);
    assert(e[0] == c0 && e[1] == c1 && e[2] == c2);
    if ignore_case {
        (c0 == 'm' || c0 == 'M') && (c1 == 'p' || c1 == 'P') && c2 == '4'
    } else {
        let r = c0 == 'm' && c1 == 'p' && c2 == '4';
        assert(r ==> e =~= seq!['m', 'p', '4']);
        r
    }
}

/// Replaces every backslash of a path with a forward slash.
pub fn normalize_separators(path: &str) -> (res: String)
    ensures
        res@ == forward_slashes(path@),
{
    let n = path.unicode_len();
    let mut s = String::new();
    let mut i: usize = 0;
    while i < n
        invariant
            n == path@.len(),
            i <= n,
            s@ == forward_slashes(path@.take(i as int)),
        decreases n - i,
    {
        let c = path.get_char(i);
        if c == '\\' {
            push_char(&mut s, '/');
        } else {
            push_char(&mut s, c);
        }
        assert(s@ =~= forward_slashes(path@.take(i + 1)));
        i = i + 1;
    }
    assert(path@.take(n as int) =~= path@);
    s
}

/// Normalizing separators twice changes nothing more than once.
pub proof fn normalize_separators_is_idempotent(path: Seq<char>)
    ensures
        forward_slashes(forward_slashes(path)) == forward_slashes(path),
        forall|i: int| 0 <= i < forward_slashes(path).len() ==> #[trigger] forward_slashes(path)[i] != '\\',
        forward_slashes(path).len() == path.len(),
{
    assert(forward_slashes(forward_slashes(path)) =~= forward_slashes(path));
}

/// Paths (with forward slashes) of the regular files named `*.mp4`, in
/// walk order.
pub open spec fn mp4_file_paths(entries: Seq<DirEntryInfo>) -> Seq<Seq<char>>
    decreases entries.len(),
{
    if entries.len() == 0 {
        seq![]
    } else {
        let rest = mp4_file_paths(entries.drop_last());
        let e = entries.last();
        if e.is_file && names_mp4(e.file_name, false) {
            rest.push(forward_slashes(e.path@))
        } else {
            rest
        }
    }
}

/// Indices of the entries whose name ends in `.mp4` in any ASCII case, in
/// walk order.
pub open spec fn video_candidates(entries: Seq<DirEntryInfo>) -> Seq<usize>
    decreases entries.len(),
{
    if entries.len() == 0 {
        seq![]
    } else {
        let rest = video_candidates(entries.drop_last());
        if names_mp4(entries.last().file_name, true) {
            rest.push((entries.len() - 1) as usize)
        } else {
            rest
        }
    }
}

fn entry_names_mp4(entry: &DirEntryInfo, ignore_case: bool) -> (res: bool)
    ensures
        res == names_mp4(entry.file_name, ignore_case),
{
    match &entry.file_name {
        Some(name) => has_mp4_extension(name.as_str(), ignore_case),
        None => false,
    }
}

/// The reported paths of the `.mp4` regular files among walked entries.
pub fn select_mp4_files(entries: &Vec<DirEntryInfo>) -> (paths: Vec<String>)
    ensures
        paths@.map_values(|p: String| p@) == mp4_file_paths(entries@),
{
    let mut paths: Vec<String> = Vec::new();
    let mut i: usize = 0;
    while i < entries.len()
        invariant
            i <= entries@.len(),
            paths@.map_values(|p: String| p@) == mp4_file_paths(entries@.take(i as int)),
        decreases entries@.len() - i,
    {
        let entry = &entries[i];
        assert(entries@.take(i + 1).drop_last() =~= entries@.take(i as int));
        if entry.is_file && entry_names_mp4(entry, false) {
            paths.push(normalize_separators(entry.path.as_str()));
        }
        assert(paths@.map_values(|p: String| p@) =~= mp4_file_paths(entries@.take(i + 1)));
        i = i + 1;
    }
    assert(entries@.take(entries@.len() as int) =~= entries@);
    paths
}

/// Indices of the walked entries that are taken as videos to inspect.
pub fn video_candidate_indices(entries: &Vec<DirEntryInfo>) -> (indices: Vec<usize>)
    ensures
        indices@ == video_candidates(entries@),
{
    let mut indices: Vec<usize> = Vec::new();
    let mut i: usize = 0;
    while i < entries.len()
        invariant
            i <= entries@.len(),
            indices@ == video_candidates(entries@.take(i as int)),
        decreases entries@.len() - i,
    {
        assert(entries@.take(i + 1).drop_last() =~= entries@.take(i as int));
        if entry_names_mp4(&entries[i], true) {
            indices.push(i);
        }
        assert(indices@ =~= video_candidates(entries@.take(i + 1)));
        i = i + 1;
    }
    assert(entries@.take(entries@.len() as int) =~= entries@);
    indices
}

/// What the metadata of one track of a video container tells: whether it
/// is a video track, and its codec name when that can be read.
#[derive(Clone, Debug)]
pub struct TrackSummary {
    pub is_video: bool,
    pub codec: Option<String>,
}

/// Which track describes a video.
#[derive(Clone, Copy, Debug, PartialEq, Eq)]
pub enum TrackPick {
    /// No track is a video track; the video is listed without track data.
    NoVideoTrack,
    /// The first video track's codec cannot be read; the video is dropped.
    Unreadable,
    /// The first video track, by position.
    Video(usize),
}

/// Position of the first video track at or after `from`, if any.
pub open spec fn first_video_from(tracks: Seq<TrackSummary>, from: int) -> Option<int>
    decreases tracks.len() - from,
{
    if from >= tracks.len() || from < 0 {
        None
    } else if tracks[from].is_video {
        Some(from)
    } else {
        first_video_from(tracks, from + 1)
    }
}

/// The pick for a container's tracks: its first video track, unless that
/// track's codec is unreadable.
pub open spec fn track_pick(tracks: Seq<TrackSummary>) -> TrackPick {
    match first_video_from(tracks, 0) {
        None => TrackPick::NoVideoTrack,
        Some(i) => if tracks[i].codec is Some {
            TrackPick::Video(i as usize)
        } else {
            TrackPick::Unreadable
        },
    }
}

proof fn lemma_first_video_skips(tracks: Seq<TrackSummary>, from: int)
    requires
        0 <= from < tracks.len(),
        !tracks[from].is_video,
    ensures
        first_video_from(tracks, from) == first_video_from(tracks, from + 1),
{
}

proof fn lemma_first_video_bounds(tracks: Seq<TrackSummary>, from: int)
    requires
        0 <= from,
    ensures
        first_video_from(tracks, from) matches Some(i) ==> from <= i < tracks.len()
            && tracks[i].is_video,
    decreases tracks.len() - from,
{
    if from < tracks.len() && !tracks[from].is_video {
        lemma_first_video_bounds(tracks, from + 1);
    }
}

/// Chooses the track that describes a video: the first video track, or
/// none; a first video track whose codec cannot be read drops the video.
pub fn pick_video_track(tracks: &Vec<TrackSummary>) -> (pick: TrackPick)
    ensures
        pick == track_pick(tracks@),
{
    let mut i: usize = 0;
    while i < tracks.len()
        invariant
            i <= tracks@.len(),
            first_video_from(tracks@, 0) == first_video_from(tracks@, i as int),
        decreases tracks@.len() - i,
    {
        if tracks[i].is_video {
            proof {
                lemma_first_video_bounds(tracks@, i as int);
            }
            return match &tracks[i].codec {
                Some(_) => TrackPick::Video(i),
                None => TrackPick::Unreadable,
            };
        }
        proof {
            lemma_first_video_skips(tracks@, i as int);
        }
        i = i + 1;
    }
    TrackPick::NoVideoTrack
}

proof fn lemma_first_video_from(tracks: Seq<TrackSummary>, from: int)
    requires
        0 <= from,
    ensures
        first_video_from(tracks, from) is None <==> forall|i: int|
            from <= i < tracks.len() ==> !(#[trigger] tracks[i]).is_video,
        forall|i: int|
            from <= i < tracks.len() && (#[trigger] tracks[i]).is_video && (forall|j: int|
                from <= j < i ==> !(#[trigger] tracks[j]).is_video) ==> first_video_from(
                tracks,
                from,
            ) == Some(i),
    decreases tracks.len() - from,
{
    if from < tracks.len() {
        lemma_first_video_from(tracks, from + 1);
        if !tracks[from].is_video {
            assert forall|i: int|
                from <= i < tracks.len() && (#[trigger] tracks[i]).is_video && (forall|j: int|
                    from <= j < i ==> !(#[trigger] tracks[j]).is_video) implies first_video_from(
                tracks,
                from,
            ) == Some(i) by {
                assert(i != from);
            }
        } else {
            assert forall|i: int|
                from <= i < tracks.len() && (#[trigger] tracks[i]).is_video && (forall|j: int|
                    from <= j < i ==> !(#[trigger] tracks[j]).is_video) implies first_video_from(
                tracks,
                from,
            ) == Some(i) by {
                if i > from {
                    assert(!tracks[from].is_video);
                }
            }
        }
    }
}

/// The track describing a video is its first video track: there is none
/// exactly when no track is a video track; otherwise the first video track
/// is used, or the video is dropped when that track's codec is unreadable.
pub proof fn first_video_track_is_picked(tracks: Seq<TrackSummary>)
    ensures
        track_pick(tracks) == TrackPick::NoVideoTrack <==> forall|i: int|
            0 <= i < tracks.len() ==> !(#[trigger] tracks[i]).is_video,
        forall|i: int|
            0 <= i < tracks.len() && (#[trigger] tracks[i]).is_video && (forall|j: int|
                0 <= j < i ==> !(#[trigger] tracks[j]).is_video) ==> track_pick(tracks) == if tracks[i].codec is Some {
                TrackPick::Video(i as usize)
            } else {
                TrackPick::Unreadable
            },
{
    lemma_first_video_from(tracks, 0);
    lemma_first_video_bounds(tracks, 0);
}

/// Normalizing a path changes nothing but its backslashes, each of which
/// becomes a forward slash.
pub proof fn normalize_changes_only_backslashes(path: Seq<char>)
    ensures
        forward_slashes(path).len() == path.len(),
        forall|i: int|
            0 <= i < path.len() ==> #[trigger] forward_slashes(path)[i] == if path[i] == '\\' {
                '/'
            } else {
                path[i]
            },
{
}

} // verus!
