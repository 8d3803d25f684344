//! Albums: their settings, the kinds of generated images, and which cached
//! images are missing or out of date.
use vstd::prelude::*;
use simple_config_parser::{Config, ConfigError};
use crate::collections::{hash_index_entries, name_set_items, HashIndex, NameSet};
use crate::config::{config_get_str, config_lookup, config_entries, config_parse, is_plain_key, parse_config};
use crate::digest::{file_hash, file_hash_of, is_hash_text, lemma_hex_plain, md5_digest};
use crate::text::{
    chars_of, find, find_from_exec, join, lines, lines_exec, push_char, slice, slice_from,
    starts_with, starts_with_exec, string_of, lemma_find_from, occurs_at, free_of, strip_cr,
    lemma_find_from_is, lemma_lines_join,
};

verus! {

#[verifier::external_type_specification]
#[verifier::external_body]
pub struct ExIoError(std::io::Error);

/// The height of a thumbnail, in pixels.
pub const THUMBNAIL_SIZE: u32 = 255;

/// The box a preview must fit in, in pixels.
pub const PREVIEW_WIDTH: u32 = 1920;

pub const PREVIEW_HEIGHT: u32 = 1080;

/// Why an album could not be loaded.
#[derive(Debug)]
pub enum AlbumError {
    /// Its configuration file could not be read.
    Config(std::io::Error),
    /// Its configuration could not be parsed, or lacks a setting.
    ConfigParse(ConfigError),
    /// Its image directory could not be read.
    Io(),
}

/// The settings read from an album's configuration.
#[derive(Debug, Clone, PartialEq, Eq, Hash)]
pub struct AlbumSettings {
    pub name: String,
    pub author: String,
    pub host_path: String,
    pub cover_path: String,
    pub readme_path: String,
    pub images_path: String,
}

impl View for AlbumSettings {
    type V = (Seq<char>, Seq<char>, Seq<char>, Seq<char>, Seq<char>, Seq<char>);

    open spec fn view(&self) -> Self::V {
        (
            self.name@,
            self.author@,
            self.host_path@,
            self.cover_path@,
            self.readme_path@,
            self.images_path@,
        )
    }
}

/// The path an album is served under: the configured one, with a leading `/`
/// added when it has none.
pub open spec fn host_path_of(h: Seq<char>) -> Seq<char> {
    if h.len() > 0 && h[0] == '/' {
        h
    } else {
        seq!['/'] + h
    }
}

/// The settings held by configuration entries: `name`, `author`,
/// `host_path`, `cover_path`, `readme` and `image_dir` must all be present.
pub open spec fn settings_of(entries: Seq<(Seq<char>, Seq<char>)>) -> Option<
    (Seq<char>, Seq<char>, Seq<char>, Seq<char>, Seq<char>, Seq<char>),
> {
    match (
        config_lookup(entries, "name"@),
        config_lookup(entries, "author"@),
        config_lookup(entries, "host_path"@),
        config_lookup(entries, "cover_path"@),
        config_lookup(entries, "readme"@),
        config_lookup(entries, "image_dir"@),
    ) {
        (Some(n), Some(a), Some(h), Some(c), Some(r), Some(i)) => Some(
            (n, a, host_path_of(h), c, r, i),
        ),
        _ => None,
    }
}

/// The settings of a configuration text, where it parses and has them all.
pub open spec fn album_settings(text: Seq<char>) -> Option<
    (Seq<char>, Seq<char>, Seq<char>, Seq<char>, Seq<char>, Seq<char>),
> {
    match config_parse(text) {
        Some(entries) => settings_of(entries),
        None => None,
    }
}

/// The value of a setting, or a parse error where it is missing.
fn try_config(config: &Config, key: &str) -> (res: Result<String, AlbumError>)
    requires
        is_plain_key(key@),
    ensures
        match res {
            Ok(v) => config_lookup(config_entries(*config), key@) == Some(v@),
            Err(e) => config_lookup(config_entries(*config), key@) is None && e is ConfigParse,
        },
{
    match config_get_str(config, key) {
        Ok(i) => Ok(i),
        Err(e) => Err(AlbumError::ConfigParse(e)),
    }
}

impl AlbumSettings {
    /// Reads an album's settings from its configuration text.
    pub fn parse(text: &str) -> (res: Result<AlbumSettings, AlbumError>)
        ensures
            match res {
                Ok(s) => album_settings(text@) == Some(s@),
                Err(e) => album_settings(text@) is None && e is ConfigParse,
            },
    {
        let config = match parse_config(text) {
            Ok(i) => i,
            Err(e) => return Err(AlbumError::ConfigParse(e)),
        };
        proof {
            reveal_strlit("name");
            reveal_strlit("author");
            reveal_strlit("host_path");
            reveal_strlit("cover_path");
            reveal_strlit("readme");
            reveal_strlit("image_dir");
        }
        let name = try_config(&config, "name")?;
        let author = try_config(&config, "author")?;
        let host = try_config(&config, "host_path")?;
        let cover_path = try_config(&config, "cover_path")?;
        let readme_path = try_config(&config, "readme")?;
        let images_path = try_config(&config, "image_dir")?;
        let host_path = normalize_host_path(host);
        Ok(AlbumSettings { name, author, host_path, cover_path, readme_path, images_path })
    }
}

/// Adds a leading `/` to a host path that has none.
fn normalize_host_path(h: String) -> (res: String)
    ensures
        res@ == host_path_of(h@),
{
    let hs = chars_of(h.as_str());
    if hs.len() > 0 && hs[0] == '/' {
        h
    } else {
        let mut res = String::new();
        push_char(&mut res, '/');
        res.append(h.as_str());
        res
    }
}

/// An album: where it lives, what it is called, and how many images it has.
#[derive(Debug, Clone, PartialEq, Eq, Hash)]
pub struct Album {
    pub path: String,
    pub name: String,
    pub author: String,
    pub host_path: String,
    pub readme_path: String,
    pub images_path: String,
    pub cover_path: String,
    pub images: usize,
}

impl Album {
    /// Builds the album at `path` from its settings and the number of entries
    /// in its image directory (`None` where that directory could not be read).
    pub fn load(path: String, settings: AlbumSettings, images: Option<usize>) -> (res: Result<
        Album,
        AlbumError,
    >)
        ensures
            match images {
                Some(n) => res matches Ok(a) && a.path@ == path@ && (
                a.name@,
                a.author@,
                a.host_path@,
                a.cover_path@,
                a.readme_path@,
                a.images_path@,
                ) == settings@ && a.images == n,
                None => res matches Err(e) && e is Io,
            },
    {
        let images = match images {
            Some(i) => i,
            None => return Err(AlbumError::Io()),
        };
        Ok(
            Album {
                path,
                name: settings.name,
                author: settings.author,
                host_path: settings.host_path,
                readme_path: settings.readme_path,
                cover_path: settings.cover_path,
                images_path: settings.images_path,
                images,
            },
        )
    }
}

/// The two kinds of generated images.
#[derive(Clone, Copy, Debug, PartialEq, Eq, Structural)]
pub enum ProcessType {
    Preview,
    Thumbnail,
}

impl ProcessType {
    pub open spec fn path_of(self) -> Seq<char> {
        match self {
            ProcessType::Thumbnail => ".thumbs"@,
            ProcessType::Preview => ".previews"@,
        }
    }

    /// The directory, inside the album, that holds this kind of image.
    pub fn to_path(self) -> (res: String)
        ensures
            res@ == self.path_of(),
    {
        match self {
            ProcessType::Thumbnail => String::from_str(".thumbs"),
            ProcessType::Preview => String::from_str(".previews"),
        }
    }

    /// The box (width, height) images of this kind are scaled to fit in.
    pub fn to_image_size(self) -> (res: (u32, u32))
        ensures
            res == match self {
                ProcessType::Thumbnail => (u32::MAX, THUMBNAIL_SIZE),
                ProcessType::Preview => (PREVIEW_WIDTH, PREVIEW_HEIGHT),
            },
    {
        match self {
            ProcessType::Thumbnail => (u32::MAX, THUMBNAIL_SIZE),
            ProcessType::Preview => (PREVIEW_WIDTH, PREVIEW_HEIGHT),
        }
    }

    /// Both kinds, thumbnails first.
    pub fn all() -> (res: [ProcessType; 2])
        ensures
            res@ == seq![ProcessType::Thumbnail, ProcessType::Preview],
    {
        [ProcessType::Thumbnail, ProcessType::Preview]
    }

    pub open spec fn name_of(self) -> Seq<char> {
        match self {
            ProcessType::Thumbnail => "thumbnails"@,
            ProcessType::Preview => "previews"@,
        }
    }

    /// The name shown to the user for this kind of image.
    pub fn to_string(self) -> (res: String)
        ensures
            res@ == self.name_of(),
    {
        match self {
            ProcessType::Thumbnail => String::from_str("thumbnails"),
            ProcessType::Preview => String::from_str("previews"),
        }
    }
}

/// The cached images to make and to delete: the paths of source images whose
/// cached copy is missing or out of date, and the names of cached images whose
/// source is gone.
pub struct ImageUpdates {
    added: NameSet,
    removed: NameSet,
}

impl View for ImageUpdates {
    type V = (Set<Seq<char>>, Set<Seq<char>>);

    closed spec fn view(&self) -> Self::V {
        (name_set_items(self.added), name_set_items(self.removed))
    }
}

/// A regular file in an album's image directory, with the bytes of its cached
/// copy where that could be read.
pub struct ImageFile {
    pub name: String,
    pub path: String,
    pub cached: Option<Vec<u8>>,
}

/// A regular file in a cache directory and its bytes.
pub struct CacheFile {
    pub name: String,
    pub bytes: Vec<u8>,
}

/// The line of the lock file that records a cached file: its name, `:`, and
/// its hash.
pub open spec fn lock_line(f: CacheFile) -> Seq<char> {
    f.name@ + seq![':'] + file_hash_of(f.bytes@)
}

/// The lock file of a cache directory: one line per cached file.
pub open spec fn lock_text(files: Seq<CacheFile>) -> Seq<char> {
    join(files.map_values(|f: CacheFile| lock_line(f)), seq!['\n'])
}

/// The entries recorded by lock lines: a line with a `:` maps what precedes
/// the first `:` to what follows it, later lines overriding earlier ones;
/// lines without `:` are skipped.
pub open spec fn lock_fold(ls: Seq<Seq<char>>) -> Map<Seq<char>, Seq<char>>
    decreases ls.len(),
{
    if ls.len() == 0 {
        Map::empty()
    } else {
        let m = lock_fold(ls.drop_last());
        let l = ls.last();
        match find(l, seq![':']) {
            Some(k) => m.insert(l.take(k), l.skip(k + 1)),
            None => m,
        }
    }
}

/// The entries recorded by a lock file.
pub open spec fn lock_entries(lock: Seq<char>) -> Map<Seq<char>, Seq<char>> {
    lock_fold(lines(lock))
}

/// Goes through the source images in order, starting from the recorded
/// entries: a file named `.lock` is passed over; a file with no entry left is
/// added; otherwise its entry is taken out, and the file is added where its
/// cached copy could not be read or hashes differently.  The result is the
/// entries left and the paths added.
pub open spec fn check_fold(recorded: Map<Seq<char>, Seq<char>>, files: Seq<ImageFile>) -> (
    Map<Seq<char>, Seq<char>>,
    Set<Seq<char>>,
)
    decreases files.len(),
{
    if files.len() == 0 {
        (recorded, Set::empty())
    } else {
        let (m, a) = check_fold(recorded, files.drop_last());
        let f = files.last();
        if f.name@ == ".lock"@ {
            (m, a)
        } else if !m.contains_key(f.name@) {
            (m, a.insert(f.path@))
        } else {
            let m2 = m.remove(f.name@);
            match f.cached {
                None => (m2, a.insert(f.path@)),
                Some(b) => if file_hash_of(b@) != m[f.name@] {
                    (m2, a.insert(f.path@))
                } else {
                    (m2, a)
                },
            }
        }
    }
}

/// The updates a cache needs, given its lock file (`None` where it could not
/// be read) and the regular files of the image directory: without a lock
/// file every image is added; with one, the images `check_fold` adds, and
/// removed the recorded names that no image took out.
pub open spec fn updates_of(lock: Option<Seq<char>>, files: Seq<ImageFile>) -> (
    Set<Seq<char>>,
    Set<Seq<char>>,
) {
    match lock {
        None => (files.map_values(|f: ImageFile| f.path@).to_set(), Set::empty()),
        Some(l) => {
            let (m, a) = check_fold(lock_entries(l), files);
            (a, m.dom())
        },
    }
}

/// A set holding the given names.
fn name_set_from(v: &Vec<String>) -> (res: NameSet)
    ensures
        name_set_items(res) == v@.map_values(|s: String| s@).to_set(),
{
    let ghost vv = v@.map_values(|s: String| s@);
    let mut res = NameSet::new();
    let mut i: usize = 0;
    assert(vv.take(0).to_set() =~= Set::empty());
    while i < v.len()
        invariant
            i <= v@.len(),
            vv == v@.map_values(|s: String| s@),
            name_set_items(res) == vv.take(i as int).to_set(),
        decreases v@.len() - i,
    {
        res.insert(v[i].clone());
        proof {
            lemma_take_to_set(vv, i as int);
        }
        i += 1;
    }
    assert(vv.take(v@.len() as int) =~= vv);
    res
}

proof fn lemma_take_to_set<A>(s: Seq<A>, i: int)
    requires
        0 <= i < s.len(),
    ensures
        s.take(i + 1).to_set() == s.take(i).to_set().insert(s[i]),
{
    assert(s.take(i + 1) =~= s.take(i).push(s[i]));
    assert(s.take(i).push(s[i]).to_set() =~= s.take(i).to_set().insert(s[i])) by {
        assert forall|x: A| s.take(i).push(s[i]).to_set().contains(x) <==> s.take(
            i,
        ).to_set().insert(s[i]).contains(x) by {
            if s.take(i).push(s[i]).contains(x) {
                let k = choose|k: int| 0 <= k < i + 1 && s.take(i).push(s[i])[k] == x;
                if k < i {
                    assert(s.take(i)[k] == x);
                }
            }
            if s.take(i).contains(x) {
                let k = choose|k: int| 0 <= k < i && s.take(i)[k] == x;
                assert(s.take(i).push(s[i])[k] == x);
            }
            if x == s[i] {
                assert(s.take(i).push(s[i])[i] == x);
            }
        }
    }
}

impl ImageUpdates {
    /// Every given image file is added; nothing is removed.
    pub fn all(files: &Vec<String>) -> (res: ImageUpdates)
        ensures
            res@ == (files@.map_values(|s: String| s@).to_set(), Set::<Seq<char>>::empty()),
    {
        ImageUpdates { added: name_set_from(files), removed: NameSet::new() }
    }

    /// Nothing to add and nothing to remove.
    pub fn is_none(&self) -> (res: bool)
        ensures
            res == (self@.0 == Set::<Seq<char>>::empty() && self@.1 == Set::<Seq<char>>::empty()),
    {
        self.added.is_empty() && self.removed.is_empty()
    }

    /// The paths of the images to make, each once, in no particular order.
    pub fn added(&self) -> (res: Vec<String>)
        ensures
            res@.map_values(|s: String| s@).to_set() == self@.0,
            res@.map_values(|s: String| s@).no_duplicates(),
    {
        self.added.to_vec()
    }

    /// The names of the cached images to delete, each once, in no particular order.
    pub fn removed(&self) -> (res: Vec<String>)
        ensures
            res@.map_values(|s: String| s@).to_set() == self@.1,
            res@.map_values(|s: String| s@).no_duplicates(),
    {
        self.removed.to_vec()
    }
}

/// The entries a lock file records.
fn read_lock(lock: &str) -> (res: HashIndex)
    ensures
        hash_index_entries(res) == lock_entries(lock@),
{
    let text = chars_of(lock);
    let ls = lines_exec(&text);
    let ghost lv = ls@.map_values(|v: Vec<char>| v@);
    let colon = chars_of(":");
    proof {
        reveal_strlit(":");
        assert(colon@ =~= seq![':']);
    }
    let mut files = HashIndex::new();
    let mut i: usize = 0;
    assert(lock_fold(lv.take(0)) =~= Map::empty());
    assert(hash_index_entries(files) =~= Map::empty());
    while i < ls.len()
        invariant
            i <= ls@.len(),
            lv == ls@.map_values(|v: Vec<char>| v@),
            colon@ == seq![':'],
            hash_index_entries(files) == lock_fold(lv.take(i as int)),
        decreases ls@.len() - i,
    {
        let l = &ls[i];
        assert(lv.take(i + 1).drop_last() =~= lv.take(i as int));
        assert(lv.take(i + 1).last() == l@);
        match find_from_exec(l, &colon, 0) {
            Some(k) => {
                let n = l.len();
                proof {
                    lemma_find_from(l@, colon@, 0);
                    assert(occurs_at(l@, colon@, k as int));
                }
                let key = slice(l, 0, k);
                let value = slice_from(l, k + 1);
                assert(key@ =~= l@.take(k as int));
                files.insert(string_of(&key), string_of(&value));
            },
            None => {},
        }
        i += 1;
    }
    assert(lv.take(ls@.len() as int) =~= lv);
    files
}

impl Album {
    /// Finds the updates a cache needs, given its lock file (`None` where it
    /// could not be read) and the regular files of the image directory.
    pub fn check(lock: Option<&str>, images: &Vec<ImageFile>) -> (res: ImageUpdates)
        ensures
            res@ == updates_of(
                match lock {
                    Some(l) => Some(l@),
                    None => None,
                },
                images@,
            ),
    {
        let lock = match lock {
            Some(l) => l,
            None => {
                let mut paths: Vec<String> = Vec::new();
                let mut i: usize = 0;
                while i < images.len()
                    invariant
                        i <= images@.len(),
                        paths@.len() == i,
                        paths@.map_values(|s: String| s@) == images@.take(i as int).map_values(
                            |f: ImageFile| f.path@,
                        ),
                    decreases images@.len() - i,
                {
                    let ghost before = paths@.map_values(|s: String| s@);
                    paths.push(images[i].path.clone());
                    proof {
                        let after = paths@.map_values(|s: String| s@);
                        let target = images@.take(i + 1).map_values(|f: ImageFile| f.path@);
                        let target0 = images@.take(i as int).map_values(|f: ImageFile| f.path@);
                        assert forall|j: int| 0 <= j < i + 1 implies #[trigger] after[j]
                            == target[j] by {
                            if j < i {
                                assert(before[j] == target0[j]);
                            }
                        }
                        assert(after =~= target);
                    }
                    i += 1;
                }
                assert(images@.take(images@.len() as int) =~= images@);
                return ImageUpdates::all(&paths);
            },
        };
        let mut files = read_lock(lock);
        let lock_name = String::from_str(".lock");
        let mut added = NameSet::new();
        let mut i: usize = 0;
        assert(images@.take(0) =~= Seq::<ImageFile>::empty());
        while i < images.len()
            invariant
                i <= images@.len(),
                lock_name@ == ".lock"@,
                (hash_index_entries(files), name_set_items(added)) == check_fold(
                    lock_entries(lock@),
                    images@.take(i as int),
                ),
            decreases images@.len() - i,
        {
            let f = &images[i];
            assert(images@.take(i + 1).drop_last() =~= images@.take(i as int));
            if f.name == lock_name {
                i += 1;
                continue ;
            }
            match files.remove(f.name.as_str()) {
                None => {
                    added.insert(f.path.clone());
                },
                Some(stored) => {
                    match &f.cached {
                        None => {
                            added.insert(f.path.clone());
                        },
                        Some(bytes) => {
                            let hash = file_hash(bytes.as_slice());
                            if hash != stored {
                                added.insert(f.path.clone());
                            }
                        },
                    }
                },
            }
            i += 1;
        }
        assert(images@.take(images@.len() as int) =~= images@);
        let keys = files.keys();
        let removed = name_set_from(&keys);
        ImageUpdates { added, removed }
    }

    /// The lock file for a cache directory, given its regular files other
    /// than the lock file itself; each hash in it is 32 lower-case hex digits.
    pub fn recalculate_hash(files: &Vec<CacheFile>) -> (res: String)
        ensures
            res@ == lock_text(files@),
            forall|i: int|
                0 <= i < files@.len() ==> is_hash_text(file_hash_of((#[trigger] files@[i]).bytes@)),
    {
        let ghost lines_v = files@.map_values(|f: CacheFile| lock_line(f));
        let mut out = String::new();
        let mut i: usize = 0;
        assert(lines_v.take(0) =~= Seq::<Seq<char>>::empty());
        while i < files.len()
            invariant
                i <= files@.len(),
                lines_v == files@.map_values(|f: CacheFile| lock_line(f)),
                out@ == join(lines_v.take(i as int), seq!['\n']),
                forall|j: int|
                    0 <= j < i ==> is_hash_text(file_hash_of((#[trigger] files@[j]).bytes@)),
            decreases files@.len() - i,
        {
            let f = &files[i];
            let ghost before = out@;
            if i > 0 {
                push_char(&mut out, '\n');
            }
            out.append(f.name.as_str());
            push_char(&mut out, ':');
            let hash = file_hash(f.bytes.as_slice());
            out.append(hash.as_str());
            proof {
                let t = lines_v.take(i + 1);
                assert(t.drop_last() =~= lines_v.take(i as int));
                assert(t.last() == lock_line(files@[i as int]));
                if i > 0 {
                    assert(out@ =~= before + seq!['\n'] + lock_line(files@[i as int]));
                } else {
                    assert(out@ =~= lock_line(files@[i as int]));
                }
            }
            i += 1;
        }
        assert(lines_v.take(files@.len() as int) =~= lines_v);
        out
    }
}


/// The hashes recorded for cache files: each name mapped to the hash of its
/// bytes, later files taking priority.
pub open spec fn hash_index_of(files: Seq<CacheFile>) -> Map<Seq<char>, Seq<char>>
    decreases files.len(),
{
    if files.len() == 0 {
        Map::empty()
    } else {
        hash_index_of(files.drop_last()).insert(
            files.last().name@,
            file_hash_of(files.last().bytes@),
        )
    }
}

/// Names a lock line can hold: without `:` and without line feeds.
pub open spec fn lockable_names(files: Seq<CacheFile>) -> bool {
    forall|i: int|
        0 <= i < files.len() ==> free_of((#[trigger] files[i]).name@, ':') && free_of(
            files[i].name@,
            '\n',
        )
}

proof fn lemma_lock_line(f: CacheFile)
    requires
        free_of(f.name@, ':'),
        free_of(f.name@, '\n'),
    ensures
        free_of(lock_line(f), '\n'),
        strip_cr(lock_line(f)) == lock_line(f),
        lock_line(f).len() > 0,
        find(lock_line(f), seq![':']) == Some(f.name@.len() as int),
        lock_line(f).take(f.name@.len() as int) == f.name@,
        lock_line(f).skip(f.name@.len() as int + 1) == file_hash_of(f.bytes@),
{
    let l = lock_line(f);
    let n = f.name@.len() as int;
    let h = file_hash_of(f.bytes@);
    lemma_hex_plain(md5_digest(f.bytes@));
    assert(l[n] == ':');
    assert forall|i: int| 0 <= i < l.len() implies l[i] != '\n' by {
        if i < n {
            assert(l[i] == f.name@[i]);
        } else if i > n {
            assert(l[i] == h[i - n - 1]);
        }
    }
    if h.len() > 0 {
        assert(l.last() == h[h.len() - 1]);
    }
    assert(l.subrange(n, n + 1) =~= seq![':']);
    assert forall|i: int| 0 <= i < n implies !occurs_at(l, seq![':'], i) by {
        assert(l.subrange(i, i + 1)[0] == f.name@[i]);
    }
    lemma_find_from_is(l, seq![':'], 0, n);
    assert(l.take(n) =~= f.name@);
    assert(l.skip(n + 1) =~= h);
}

proof fn lemma_lock_fold_lines(files: Seq<CacheFile>)
    requires
        lockable_names(files),
    ensures
        lock_fold(files.map_values(|f: CacheFile| lock_line(f))) == hash_index_of(files),
    decreases files.len(),
{
    if files.len() > 0 {
        let init = files.drop_last();
        assert(lockable_names(init)) by {
            assert forall|i: int| 0 <= i < init.len() implies free_of(
                (#[trigger] init[i]).name@,
                ':',
            ) && free_of(init[i].name@, '\n') by {
                assert(init[i] == files[i]);
            }
        }
        lemma_lock_fold_lines(init);
        let ls = files.map_values(|f: CacheFile| lock_line(f));
        assert(ls.drop_last() =~= init.map_values(|f: CacheFile| lock_line(f)));
        assert(free_of(files.last().name@, ':') && free_of(files.last().name@, '\n')) by {
            assert(files.last() == files[files.len() - 1]);
        }
        lemma_lock_line(files.last());
    }
}

/// Reading back the lock file written for cache files (whose names hold no
/// `:` and no line feed) gives each name the hash of that file's bytes.
pub proof fn lemma_lock_round_trip(files: Seq<CacheFile>)
    requires
        lockable_names(files),
    ensures
        lock_entries(lock_text(files)) == hash_index_of(files),
{
    let ls = files.map_values(|f: CacheFile| lock_line(f));
    assert forall|i: int| 0 <= i < ls.len() implies free_of(#[trigger] ls[i], '\n') && strip_cr(
        ls[i],
    ) == ls[i] && ls[i].len() > 0 by {
        assert(free_of(files[i].name@, ':') && free_of(files[i].name@, '\n'));
        lemma_lock_line(files[i]);
    }
    lemma_lines_join(ls);
    lemma_lock_fold_lines(files);
}

/// The names of the source images other than `.lock`.
pub open spec fn image_names(images: Seq<ImageFile>) -> Set<Seq<char>> {
    images.filter(|f: ImageFile| f.name@ != ".lock"@).map_values(|f: ImageFile| f.name@).to_set()
}

/// No two images share a name.
pub open spec fn distinct_image_names(images: Seq<ImageFile>) -> bool {
    forall|i: int, j: int|
        0 <= i < j < images.len() ==> (#[trigger] images[i]).name@ != (#[trigger] images[j]).name@
}

/// No two cache files share a name.
pub open spec fn distinct_cache_names(files: Seq<CacheFile>) -> bool {
    forall|i: int, j: int|
        0 <= i < j < files.len() ==> (#[trigger] files[i]).name@ != (#[trigger] files[j]).name@
}

proof fn lemma_hash_index_of(files: Seq<CacheFile>)
    requires
        distinct_cache_names(files),
    ensures
        forall|j: int|
            0 <= j < files.len() ==> hash_index_of(files).contains_key((#[trigger] files[j]).name@)
                && hash_index_of(files)[files[j].name@] == file_hash_of(files[j].bytes@),
        forall|k: Seq<char>|
            #[trigger] hash_index_of(files).contains_key(k) ==> exists|j: int|
                0 <= j < files.len() && files[j].name@ == k,
    decreases files.len(),
{
    if files.len() > 0 {
        let init = files.drop_last();
        assert(distinct_cache_names(init)) by {
            assert forall|i: int, j: int| 0 <= i < j < init.len() implies (#[trigger] init[i]).name@
                != (#[trigger] init[j]).name@ by {
                assert(init[i] == files[i] && init[j] == files[j]);
            }
        }
        lemma_hash_index_of(init);
        let last = files.len() - 1;
        assert forall|j: int| 0 <= j < files.len() implies hash_index_of(files).contains_key(
            (#[trigger] files[j]).name@,
        ) && hash_index_of(files)[files[j].name@] == file_hash_of(files[j].bytes@) by {
            if j < last {
                assert(files[j] == init[j]);
                assert(files[j].name@ != files[last].name@);
            }
        }
        assert forall|k: Seq<char>| #[trigger] hash_index_of(files).contains_key(k) implies exists|
            j: int,
        | 0 <= j < files.len() && files[j].name@ == k by {
            if k != files[last].name@ {
                assert(hash_index_of(init).contains_key(k));
                let j = choose|j: int| 0 <= j < init.len() && init[j].name@ == k;
                assert(files[j] == init[j]);
            } else {
                assert(files[last].name@ == k);
            }
        }
    }
}

/// Every source image other than `.lock` has an entry whose hash is that of
/// its readable cached copy.
pub open spec fn cached_and_recorded(
    recorded: Map<Seq<char>, Seq<char>>,
    images: Seq<ImageFile>,
) -> bool {
    forall|i: int|
        0 <= i < images.len() && (#[trigger] images[i]).name@ != ".lock"@ ==> recorded.contains_key(
            images[i].name@,
        ) && (images[i].cached matches Some(b) && file_hash_of(b@)
            == recorded[images[i].name@])
}

proof fn lemma_check_fold_fresh(recorded: Map<Seq<char>, Seq<char>>, images: Seq<ImageFile>)
    requires
        distinct_image_names(images),
        cached_and_recorded(recorded, images),
    ensures
        check_fold(recorded, images).1 == Set::<Seq<char>>::empty(),
        check_fold(recorded, images).0 == recorded.remove_keys(image_names(images)),
    decreases images.len(),
{
    let names = image_names(images);
    if images.len() == 0 {
        assert(images.filter(|f: ImageFile| f.name@ != ".lock"@) =~= Seq::<ImageFile>::empty());
        assert(names =~= Set::<Seq<char>>::empty());
        assert(recorded.remove_keys(names) =~= recorded);
    } else {
        let init = images.drop_last();
        let f = images.last();
        assert(distinct_image_names(init)) by {
            assert forall|i: int, j: int| 0 <= i < j < init.len() implies (#[trigger] init[i]).name@
                != (#[trigger] init[j]).name@ by {
                assert(init[i] == images[i] && init[j] == images[j]);
            }
        }
        assert(cached_and_recorded(recorded, init)) by {
            assert forall|i: int|
                0 <= i < init.len() && (#[trigger] init[i]).name@ != ".lock"@ implies recorded.contains_key(
                init[i].name@,
            ) && (init[i].cached matches Some(b) && file_hash_of(b@) == recorded[init[i].name@]) by {
                assert(init[i] == images[i]);
            }
        }
        lemma_check_fold_fresh(recorded, init);
        let init_names = image_names(init);
        let keep = |g: ImageFile| g.name@ != ".lock"@;
        let nm = |g: ImageFile| g.name@;
        init.lemma_filter_push(f, keep);
        assert(images =~= init.push(f));
        if f.name@ == ".lock"@ {
            assert(images.filter(keep) =~= init.filter(keep));
            assert(names =~= init_names);
        } else {
            assert(images.filter(keep) =~= init.filter(keep).push(f));
            assert(images.filter(keep).map_values(nm) =~= init.filter(keep).map_values(nm).push(
                f.name@,
            ));
            assert(names =~= init_names.insert(f.name@)) by {
                let s = init.filter(keep).map_values(nm);
                assert forall|x: Seq<char>| s.push(f.name@).to_set().contains(x) <==> s.to_set().insert(
                    f.name@,
                ).contains(x) by {
                    if s.push(f.name@).contains(x) {
                        let k = choose|k: int| 0 <= k < s.len() + 1 && s.push(f.name@)[k] == x;
                        if k < s.len() {
                            assert(s[k] == x);
                        }
                    }
                    if s.contains(x) {
                        let k = choose|k: int| 0 <= k < s.len() && s[k] == x;
                        assert(s.push(f.name@)[k] == x);
                    }
                    if x == f.name@ {
                        assert(s.push(f.name@)[s.len() as int] == x);
                    }
                }
                assert(s.push(f.name@).to_set() =~= s.to_set().insert(f.name@));
            }
            let last = images.len() - 1;
            assert(images[last] == f);
            assert(!init_names.contains(f.name@)) by {
                if init_names.contains(f.name@) {
                    let s = init.filter(keep).map_values(nm);
                    let k = choose|k: int| 0 <= k < s.len() && s[k] == f.name@;
                    let g = init.filter(keep)[k];
                    assert(init.filter(keep).contains(g));
                    init.lemma_filter_contains_rev(keep, g);
                    let i = choose|i: int| 0 <= i < init.len() && init[i] == g;
                    assert(images[i] == g);
                }
            }
            assert(recorded.contains_key(f.name@));
            assert(check_fold(recorded, images).0 =~= recorded.remove_keys(names));
        }
    }
}

/// Once the lock file has been written for a cache directory, and each
/// source image other than `.lock` has a readable cached copy, under the same
/// name, with the bytes the lock file was written from, and every cached file
/// has such a source image, the check finds nothing to make and nothing to
/// delete.
pub proof fn lemma_fresh_cache_needs_nothing(cache: Seq<CacheFile>, images: Seq<ImageFile>)
    requires
        lockable_names(cache),
        distinct_cache_names(cache),
        distinct_image_names(images),
        forall|i: int|
            0 <= i < images.len() && (#[trigger] images[i]).name@ != ".lock"@ ==> exists|j: int|
                0 <= j < cache.len() && cache[j].name@ == images[i].name@ && (
                images[i].cached matches Some(b) && b@ == cache[j].bytes@),
        forall|j: int|
            0 <= j < cache.len() ==> exists|i: int|
                0 <= i < images.len() && images[i].name@ == (#[trigger] cache[j]).name@
                    && images[i].name@ != ".lock"@,
    ensures
        updates_of(Some(lock_text(cache)), images) == (
            Set::<Seq<char>>::empty(),
            Set::<Seq<char>>::empty(),
        ),
{
    lemma_lock_round_trip(cache);
    lemma_hash_index_of(cache);
    let recorded = hash_index_of(cache);
    assert(cached_and_recorded(recorded, images)) by {
        assert forall|i: int|
            0 <= i < images.len() && (#[trigger] images[i]).name@ != ".lock"@ implies recorded.contains_key(
            images[i].name@,
        ) && (images[i].cached matches Some(b) && file_hash_of(b@) == recorded[images[i].name@]) by {
            let j = choose|j: int|
                0 <= j < cache.len() && cache[j].name@ == images[i].name@ && (
                images[i].cached matches Some(b) && b@ == cache[j].bytes@);
            assert(recorded.contains_key(cache[j].name@));
        }
    }
    lemma_check_fold_fresh(recorded, images);
    let names = image_names(images);
    let keep = |g: ImageFile| g.name@ != ".lock"@;
    let nm = |g: ImageFile| g.name@;
    assert(recorded.remove_keys(names).dom() =~= Set::<Seq<char>>::empty()) by {
        assert forall|k: Seq<char>| !recorded.remove_keys(names).dom().contains(k) by {
            if recorded.contains_key(k) {
                let j = choose|j: int| 0 <= j < cache.len() && cache[j].name@ == k;
                let i = choose|i: int|
                    0 <= i < images.len() && images[i].name@ == (#[trigger] cache[j]).name@
                        && images[i].name@ != ".lock"@;
                images.lemma_filter_contains(keep, i);
                let s = images.filter(keep);
                let k2 = choose|k2: int| 0 <= k2 < s.len() && s[k2] == images[i];
                assert(s.map_values(nm)[k2] == k);
                assert(names.contains(k));
            }
        }
    }
}

/// An entry of the albums directory: its path, its name, and whether it is a
/// directory (`None` where that could not be told).
pub struct DirInfo {
    pub path: String,
    pub name: String,
    pub is_dir: Option<bool>,
}

/// The album directories among the entries, visited last to first: entries
/// whose name starts with `album_` and that are directories, by path; `None`
/// where the kind of such an entry could not be told.
pub open spec fn album_dirs_of(entries: Seq<DirInfo>) -> Option<Seq<Seq<char>>>
    decreases entries.len(),
{
    if entries.len() == 0 {
        Some(Seq::empty())
    } else {
        let e = entries.last();
        if !starts_with(e.name@, "album_"@) {
            album_dirs_of(entries.drop_last())
        } else {
            match e.is_dir {
                None => None,
                Some(false) => album_dirs_of(entries.drop_last()),
                Some(true) => match album_dirs_of(entries.drop_last()) {
                    Some(r) => Some(seq![e.path@] + r),
                    None => None,
                },
            }
        }
    }
}

/// The paths of the album directories to load, from the (sorted) entries of
/// the albums directory, last entry first.
pub fn album_dirs(entries: &Vec<DirInfo>) -> (res: Option<Vec<String>>)
    ensures
        match res {
            Some(v) => album_dirs_of(entries@) == Some(v@.map_values(|s: String| s@)),
            None => album_dirs_of(entries@) is None,
        },
{
    let prefix = chars_of("album_");
    let mut out: Vec<String> = Vec::new();
    let mut i = entries.len();
    assert(entries@.take(entries@.len() as int) =~= entries@);
    while i > 0
        invariant
            i <= entries@.len(),
            prefix@ == "album_"@,
            album_dirs_of(entries@) == match album_dirs_of(entries@.take(i as int)) {
                Some(r) => Some(out@.map_values(|s: String| s@) + r),
                None => None,
            },
        decreases i,
    {
        let e = &entries[i - 1];
        let ghost t = entries@.take(i as int);
        assert(t.drop_last() =~= entries@.take(i - 1));
        assert(t.last() == entries@[i - 1]);
        let name = chars_of(e.name.as_str());
        if starts_with_exec(&name, &prefix) {
            match e.is_dir {
                None => return None,
                Some(false) => {},
                Some(true) => {
                    let ghost before = out@.map_values(|s: String| s@);
                    out.push(e.path.clone());
                    proof {
                        let after = out@.map_values(|s: String| s@);
                        assert(after =~= before.push(e.path@));
                        match album_dirs_of(entries@.take(i - 1)) {
                            Some(r) => {
                                assert(before + (seq![e.path@] + r) =~= after + r);
                            },
                            None => {},
                        }
                    }
                },
            }
        }
        i -= 1;
    }
    assert(entries@.take(0) =~= Seq::<DirInfo>::empty());
    assert(out@.map_values(|s: String| s@) + Seq::<Seq<char>>::empty() =~= out@.map_values(
        |s: String| s@,
    ));
    Some(out)
}

} // verus!
