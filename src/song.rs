use vstd::prelude::*;
use vstd::string::StringExecFns;

verus! {

/// The query text for a track: title, artist and album, in that order,
/// separated by single spaces, with no escaping.
pub open spec fn query_of(name: Seq<char>, artist: Seq<char>, album: Seq<char>) -> Seq<char> {
    name + seq![' '] + artist + seq![' '] + album
}

/// One track of the library: its free-text fields as they stand in the export,
/// and the service's identifier once a search has matched it.
#[derive(Debug, Clone)]
pub struct Song {
    pub artist: String,
    pub name: String,
    pub album: String,
    pub uri: Option<String>,
}

impl Song {
    /// The free-text fields as (artist, title, album).
    pub open spec fn fields(&self) -> (Seq<char>, Seq<char>, Seq<char>) {
        (self.artist@, self.name@, self.album@)
    }

    /// A track that no search has matched yet.
    pub fn new(artist: String, name: String, album: String) -> (r: Song)
        ensures
            r.artist@ == artist@,
            r.name@ == name@,
            r.album@ == album@,
            r.uri is None,
    {
        Song { artist, name, album, uri: None }
    }

    /// The text handed to the search: `"<title> <artist> <album>"`.
    pub fn as_search_term(&self) -> (r: String)
        ensures
            r@ == query_of(self.name@, self.artist@, self.album@),
    {
        let mut q = self.name.clone();
        proof {
            reveal_strlit(" ");
        }
        q.append(" ");
        q.append(self.artist.as_str());
        q.append(" ");
        q.append(self.album.as_str());
        q
    }
}

} // verus!
