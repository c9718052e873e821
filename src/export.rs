use vstd::prelude::*;
use vstd::string::StringExecFns;
use crate::song::Song;

verus! {

/// A node of the decoded library export: a map with its entries in the
/// order in which the decoder yields them, a string, or any other value.
#[derive(Debug)]
pub enum Node {
    Dict(Vec<(String, Node)>),
    Text(String),
    Other,
}

/// Why a track list could not be read.
#[derive(Debug, Clone)]
pub enum ExtractError {
    /// The track under `key` lacks one of its text fields `Artist`, `Name` or
    /// `Album`, or has one that is not a string.
    MalformedEntry { key: String },
}

/// The value of the first entry named `key`, if any.
pub open spec fn lookup(entries: Seq<(String, Node)>, key: Seq<char>) -> Option<Node>
    decreases entries.len(),
{
    if entries.len() == 0 {
        Option::None
    } else if entries[0].0@ == key {
        Option::Some(entries[0].1)
    } else {
        lookup(entries.drop_first(), key)
    }
}

/// The string under `key`, if there is one and it is a string.
pub open spec fn text_of(entries: Seq<(String, Node)>, key: Seq<char>) -> Option<Seq<char>> {
    match lookup(entries, key) {
        Option::Some(Node::Text(s)) => Option::Some(s@),
        _ => Option::None,
    }
}

/// The (artist, title, album) of one track entry, if all three are strings.
pub open spec fn entry_fields(track: Seq<(String, Node)>) -> Option<(Seq<char>, Seq<char>, Seq<char>)> {
    match (text_of(track, "Artist"@), text_of(track, "Name"@), text_of(track, "Album"@)) {
        (Option::Some(a), Option::Some(n), Option::Some(al)) => Option::Some((a, n, al)),
        _ => Option::None,
    }
}

/// The entries of the map under `Tracks` at the top of the export; none when
/// there is no such map.
pub open spec fn tracks_of(root: Node) -> Seq<(String, Node)> {
    match root {
        Node::Dict(top) => match lookup(top@, "Tracks"@) {
            Option::Some(Node::Dict(tracks)) => tracks@,
            _ => seq![],
        },
        _ => seq![],
    }
}

/// The tracks of a track map in its order, each as (artist, title, album);
/// entries that are not maps are passed over, and the first map entry that
/// lacks a text field stops the whole read with its key.
pub open spec fn songs_of(entries: Seq<(String, Node)>) -> Result<
    Seq<(Seq<char>, Seq<char>, Seq<char>)>,
    Seq<char>,
>
    decreases entries.len(),
{
    if entries.len() == 0 {
        Result::Ok(seq![])
    } else {
        match songs_of(entries.drop_last()) {
            Result::Err(k) => Result::Err(k),
            Result::Ok(prev) => match entries.last().1 {
                Node::Dict(track) => match entry_fields(track@) {
                    Option::Some(f) => Result::Ok(prev.push(f)),
                    Option::None => Result::Err(entries.last().0@),
                },
                _ => Result::Ok(prev),
            },
        }
    }
}

/// Once a prefix of the entries fails to read, the whole fails the same way.
proof fn lemma_error_stays(entries: Seq<(String, Node)>, i: int)
    requires
        0 <= i <= entries.len(),
        songs_of(entries.subrange(0, i)) is Err,
    ensures
        songs_of(entries) == songs_of(entries.subrange(0, i)),
    decreases entries.len(),
{
    if i == entries.len() {
        assert(entries.subrange(0, i) =~= entries);
    } else {
        let prev = entries.drop_last();
        assert(prev.subrange(0, i) =~= entries.subrange(0, i));
        lemma_error_stays(prev, i);
    }
}

/// The value of the first entry named `key`.
pub fn find<'a>(entries: &'a Vec<(String, Node)>, key: &String) -> (r: Option<&'a Node>)
    ensures
        lookup(entries@, key@) == match r {
            Option::Some(v) => Option::Some(*v),
            Option::None => Option::None,
        },
{
    let mut i: usize = 0;
    assert(entries@.subrange(0, entries@.len() as int) =~= entries@);
    while i < entries.len()
        invariant
            i <= entries.len(),
            lookup(entries@, key@) == lookup(entries@.subrange(i as int, entries@.len() as int), key@),
        decreases entries.len() - i,
    {
        let ghost rest = entries@.subrange(i as int, entries@.len() as int);
        assert(rest.drop_first() =~= entries@.subrange(i + 1, entries@.len() as int));
        assert(rest[0] == entries@[i as int]);
        if entries[i].0 == *key {
            return Option::Some(&entries[i].1);
        }
        i = i + 1;
    }
    Option::None
}

/// A copy of the string under `key`, if there is one and it is a string.
pub fn text_field(entries: &Vec<(String, Node)>, key: &String) -> (r: Option<String>)
    ensures
        text_of(entries@, key@) == match r {
            Option::Some(s) => Option::Some(s@),
            Option::None => Option::None,
        },
{
    match find(entries, key) {
        Option::Some(Node::Text(s)) => Option::Some(s.clone()),
        _ => Option::None,
    }
}

/// Reads the tracks of a track map, in its order.
pub fn songs_from_entries(entries: &Vec<(String, Node)>) -> (r: Result<Vec<Song>, ExtractError>)
    ensures
        match r {
            Result::Ok(v) => songs_of(entries@) == Result::<_, Seq<char>>::Ok(
                v@.map_values(|s: Song| s.fields()),
            ) && forall|i: int| 0 <= i < v.len() ==> (#[trigger] v@[i]).uri is None,
            Result::Err(ExtractError::MalformedEntry { key }) => songs_of(entries@) == Result::<
                Seq<(Seq<char>, Seq<char>, Seq<char>)>,
                _,
            >::Err(key@),
        },
{
    let artist_key = String::from_str("Artist");
    let name_key = String::from_str("Name");
    let album_key = String::from_str("Album");
    let mut songs: Vec<Song> = Vec::new();
    let mut i: usize = 0;
    assert(songs@.map_values(|s: Song| s.fields()) =~= seq![]);
    while i < entries.len()
        invariant
            i <= entries.len(),
            artist_key@ == "Artist"@,
            name_key@ == "Name"@,
            album_key@ == "Album"@,
            songs_of(entries@.subrange(0, i as int)) == Result::<_, Seq<char>>::Ok(
                songs@.map_values(|s: Song| s.fields()),
            ),
            forall|j: int| 0 <= j < songs.len() ==> (#[trigger] songs@[j]).uri is None,
        decreases entries.len() - i,
    {
        let ghost before = songs@;
        let ghost upto = entries@.subrange(0, i + 1);
        assert(upto.drop_last() =~= entries@.subrange(0, i as int));
        assert(upto.last() == entries@[i as int]);
        match &entries[i].1 {
            Node::Dict(track) => {
                let artist = text_field(track, &artist_key);
                let name = text_field(track, &name_key);
                let album = text_field(track, &album_key);
                match (artist, name, album) {
                    (Option::Some(a), Option::Some(n), Option::Some(al)) => {
                        let song = Song::new(a, n, al);
                        songs.push(song);
                        assert(songs@.map_values(|s: Song| s.fields()) =~= before.map_values(
                            |s: Song| s.fields(),
                        ).push(song.fields()));
                    },
                    _ => {
                        proof {
                            lemma_error_stays(entries@, i + 1);
                        }
                        return Result::Err(ExtractError::MalformedEntry { key: entries[i].0.clone() });
                    },
                }
            },
            _ => {},
        }
        i = i + 1;
    }
    assert(entries@.subrange(0, entries@.len() as int) =~= entries@);
    Result::Ok(songs)
}

/// Reads the tracks of a decoded library export, in the order of its track
/// map. An export with no track map has no tracks; a track entry that lacks
/// one of its text fields fails the whole read with that entry's key.
pub fn extract_songs(root: &Node) -> (r: Result<Vec<Song>, ExtractError>)
    ensures
        match r {
            Result::Ok(v) => songs_of(tracks_of(*root)) == Result::<_, Seq<char>>::Ok(
                v@.map_values(|s: Song| s.fields()),
            ) && forall|i: int| 0 <= i < v.len() ==> (#[trigger] v@[i]).uri is None,
            Result::Err(ExtractError::MalformedEntry { key }) => songs_of(tracks_of(*root))
                == Result::<Seq<(Seq<char>, Seq<char>, Seq<char>)>, _>::Err(key@),
        },
{
    let tracks_key = String::from_str("Tracks");
    let none: Vec<Song> = Vec::new();
    assert(none@.map_values(|s: Song| s.fields()) =~= seq![]);
    match root {
        Node::Dict(top) => match find(top, &tracks_key) {
            Option::Some(Node::Dict(tracks)) => songs_from_entries(tracks),
            _ => Result::Ok(none),
        },
        _ => Result::Ok(none),
    }
}

} // verus!
