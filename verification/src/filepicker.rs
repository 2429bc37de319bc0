use vstd::prelude::*;

verus! {

/// The last component of the path `p` (`Path::file_name`), as text.
pub uninterp spec fn spec_file_name(p: Seq<char>) -> Option<Seq<char>>;

/// The extension of the path `p` (`Path::extension`), as text.
pub uninterp spec fn spec_extension(p: Seq<char>) -> Option<Seq<char>>;

/// The lower-case form of `s` (`str::to_lowercase`, by the Unicode tables).
pub uninterp spec fn spec_to_lowercase(s: Seq<char>) -> Seq<char>;

/// Calls `std::path::Path::file_name` on the path `path` and converts the
/// result to text; the result is named `spec_file_name`.
#[verifier::external_body]
pub(crate) fn path_file_name(path: &str) -> (r: Option<String>)
    ensures
        match r {
            Some(n) => spec_file_name(path@) == Some(n@),
            None => spec_file_name(path@) is None,
        },
{
    std::path::Path::new(path).file_name().and_then(|n| n.to_str()).map(|n| n.to_string())
}

/// Calls `std::path::Path::extension` on the path `path` and converts the
/// result to text; the result is named `spec_extension`.
#[verifier::external_body]
pub(crate) fn path_extension(path: &str) -> (r: Option<String>)
    ensures
        match r {
            Some(n) => spec_extension(path@) == Some(n@),
            None => spec_extension(path@) is None,
        },
{
    std::path::Path::new(path).extension().and_then(|n| n.to_str()).map(|n| n.to_string())
}

/// Calls `str::to_lowercase`; the result is named `spec_to_lowercase`.
#[verifier::external_body]
pub(crate) fn to_lowercase(s: &str) -> (r: String)
    ensures
        r@ == spec_to_lowercase(s@),
{
    s.to_lowercase()
}

/// The characters of `s`.
pub fn chars_of(s: &str) -> (r: Vec<char>)
    ensures
        r@ == s@,
{
    let n = s.unicode_len();
    let mut r: Vec<char> = Vec::new();
    let mut i: usize = 0;
    while i < n
        invariant
            i <= n,
            n == s@.len(),
            r@ == s@.take(i as int),
        decreases n - i,
    {
        r.push(s.get_char(i));
        assert(s@.take(i + 1) == s@.take(i as int).push(s@[i as int]));
        i = i + 1;
    }
    assert(s@.take(n as int) == s@);
    r
}

/// Whether `needle` occurs in `hay` at position `i`.
pub open spec fn occurs_at(hay: Seq<char>, needle: Seq<char>, i: int) -> bool {
    0 <= i && i + needle.len() <= hay.len() && hay.subrange(i, i + needle.len()) == needle
}

/// Whether `needle` occurs in `hay`.
pub open spec fn contains_seq(hay: Seq<char>, needle: Seq<char>) -> bool {
    exists|i: int| occurs_at(hay, needle, i)
}

/// Whether `needle` occurs in `hay` (as `str::contains` with a `&str` pattern).
pub fn contains_substring(hay: &Vec<char>, needle: &Vec<char>) -> (r: bool)
    ensures
        r == contains_seq(hay@, needle@),
{
    if needle.len() > hay.len() {
        assert forall|i: int| !occurs_at(hay@, needle@, i) by {}
        return false;
    }
    let last = hay.len() - needle.len();
    let mut i: usize = 0;
    while i <= last
        invariant
            last == hay.len() - needle.len(),
            needle.len() <= hay.len(),
            i <= last + 1,
            forall|k: int| 0 <= k < i ==> !occurs_at(hay@, needle@, k),
        decreases last + 1 - i,
    {
        let mut j: usize = 0;
        let mut same = true;
        while j < needle.len()
            invariant
                j <= needle.len(),
                i <= last,
                last == hay.len() - needle.len(),
                same == (forall|m: int| 0 <= m < j ==> hay@[i + m] == needle@[m]),
            decreases needle.len() - j,
        {
            if hay[i + j] != needle[j] {
                same = false;
            }
            j = j + 1;
        }
        if same {
            assert(hay@.subrange(i as int, i + needle.len()) =~= needle@);
            assert(occurs_at(hay@, needle@, i as int));
            return true;
        }
        assert(!occurs_at(hay@, needle@, i as int)) by {
            let m = choose|m: int| 0 <= m < needle.len() && hay@[i + m] != needle@[m];
            assert(hay@.subrange(i as int, i + needle.len())[m] != needle@[m]);
        }
        i = i + 1;
    }
    assert forall|k: int| !occurs_at(hay@, needle@, k) by {
        if 0 <= k && k + needle.len() <= hay.len() {
            assert(k < i);
        }
    }
    false
}

/// The ASCII lower-case form of a character (`char::to_ascii_lowercase`).
pub open spec fn ascii_lower(c: char) -> char {
    if 'A' <= c && c <= 'Z' {
        ((c as u32) + 32) as char
    } else {
        c
    }
}

/// The ASCII lower-case form of `s` (`str::to_ascii_lowercase`).
pub open spec fn ascii_lowercase(s: Seq<char>) -> Seq<char> {
    s.map_values(|c: char| ascii_lower(c))
}

/// The ASCII lower-case form of the characters `s`.
pub fn to_ascii_lowercase(s: &Vec<char>) -> (r: Vec<char>)
    ensures
        r@ == ascii_lowercase(s@),
{
    let mut r: Vec<char> = Vec::new();
    let mut i: usize = 0;
    while i < s.len()
        invariant
            i <= s.len(),
            r@ == ascii_lowercase(s@).take(i as int),
        decreases s.len() - i,
    {
        let c = s[i];
        let l = if 'A' <= c && c <= 'Z' {
            char_from_code((c as u32) + 32)
        } else {
            c
        };
        r.push(l);
        assert(ascii_lowercase(s@).take(i + 1) == ascii_lowercase(s@).take(i as int).push(
            ascii_lower(s@[i as int]),
        ));
        i = i + 1;
    }
    assert(ascii_lowercase(s@).take(i as int) == ascii_lowercase(s@));
    r
}

/// The character with the code `u`, an ASCII lower-case letter.
fn char_from_code(u: u32) -> (c: char)
    requires
        97 <= u <= 122,
    ensures
        c == u as char,
{
    let b: u8 = u as u8;
    b as char
}

/// Whether two character sequences are equal.
pub fn chars_equal(a: &Vec<char>, b: &Vec<char>) -> (r: bool)
    ensures
        r == (a@ == b@),
{
    if a.len() != b.len() {
        return false;
    }
    let mut i: usize = 0;
    while i < a.len()
        invariant
            i <= a.len(),
            a.len() == b.len(),
            forall|k: int| 0 <= k < i ==> a@[k] == b@[k],
        decreases a.len() - i,
    {
        if a[i] != b[i] {
            return false;
        }
        i = i + 1;
    }
    assert(a@ =~= b@);
    true
}

/// The extensions, in lower case, that the browser shows as audio files.
pub open spec fn audio_extensions() -> Seq<Seq<char>> {
    seq![
        seq!['m', 'p', '3'],
        seq!['w', 'a', 'v'],
        seq!['f', 'l', 'a', 'c'],
        seq!['o', 'g', 'g'],
        seq!['a', 'i', 'f', 'f'],
        seq!['a', 'a', 'c'],
        seq!['m', '4', 'a'],
        seq!['m', 'i', 'd', 'i'],
        seq!['m', 'i', 'd'],
    ]
}

/// Whether the path names an audio file: its extension, in ASCII lower case,
/// is one of `audio_extensions`.
pub open spec fn spec_is_audio_file(path: Seq<char>) -> bool {
    match spec_extension(path) {
        Some(e) => audio_extensions().contains(ascii_lowercase(e)),
        None => false,
    }
}

/// Whether the path names an audio file, by its extension.
pub fn is_audio_file(path: &String) -> (r: bool)
    ensures
        r == spec_is_audio_file(path@),
{
    match path_extension(path.as_str()) {
        Some(ext) => {
            let lower = to_ascii_lowercase(&chars_of(ext.as_str()));
            let known: Vec<Vec<char>> = vec![
                vec!['m', 'p', '3'],
                vec!['w', 'a', 'v'],
                vec!['f', 'l', 'a', 'c'],
                vec!['o', 'g', 'g'],
                vec!['a', 'i', 'f', 'f'],
                vec!['a', 'a', 'c'],
                vec!['m', '4', 'a'],
                vec!['m', 'i', 'd', 'i'],
                vec!['m', 'i', 'd'],
            ];
            let ghost kv = known@.map_values(|v: Vec<char>| v@);
            assert(kv =~= audio_extensions());
            let mut i: usize = 0;
            while i < known.len()
                invariant
                    i <= known.len(),
                    kv == known@.map_values(|v: Vec<char>| v@),
                    kv == audio_extensions(),
                    lower@ == ascii_lowercase(ext@),
                    spec_extension(path@) == Some(ext@),
                    forall|k: int| 0 <= k < i ==> kv[k] != lower@,
                decreases known.len() - i,
            {
                if chars_equal(&known[i], &lower) {
                    assert(kv[i as int] == known@[i as int]@);
                    assert(kv[i as int] == lower@);
                    assert(lower@ == ascii_lowercase(ext@));
                    assert(audio_extensions()[i as int] == ascii_lowercase(ext@));
                    assert(audio_extensions().contains(ascii_lowercase(ext@)));
                    assert(spec_extension(path@) == Some(ext@));
                    return true;
                }
                i = i + 1;
            }
            false
        },
        None => false,
    }
}

/// An entry of the file browser: a directory or an audio file, with the
/// entries inside it once they have been read.
pub struct File {
    pub entry: String,
    pub open: bool,
    pub children: Option<Vec<File>>,
}

/// The children of `f`, none if they were not read.
pub open spec fn children_of(f: File) -> Seq<File> {
    match f.children {
        Some(c) => c@,
        None => Seq::empty(),
    }
}

impl File {
    /// A directory or file entry whose children were not read.
    pub fn new(entry: String, open: bool) -> (f: Self)
        ensures
            f.entry@ == entry@,
            f.open == open,
            f.children is None,
    {
        File { entry, open, children: None }
    }

    /// Whether the children of the entry still have to be read.
    pub fn needs_children(&self) -> (r: bool)
        ensures
            r == self.children is None,
    {
        self.children.is_none()
    }

    /// Fills in the children of the entry with `read` if they were not read
    /// yet; children read before stay and `read` is dropped.
    pub fn get_children(&mut self, read: Vec<File>)
        ensures
            final(self).entry == old(self).entry,
            final(self).open == old(self).open,
            final(self).children == match old(self).children {
                Some(c) => Some(c),
                None => Some(read),
            },
    {
        if self.children.is_none() {
            self.children = Some(read);
        }
    }
}

/// Whether a directory entry is listed in the picker: directories and audio
/// files are, anything else is not.
pub fn keep_entry(path: &String, is_dir: bool) -> (r: bool)
    ensures
        r == (is_dir || spec_is_audio_file(path@)),
{
    if is_dir {
        true
    } else {
        is_audio_file(path)
    }
}

/// Number of entries of the tree rooted at `f`.
pub open spec fn tree_size(f: File) -> nat
    decreases f,
{
    1 + match f.children {
        Some(c) => forest_size(c@),
        None => 0,
    }
}

/// Number of entries of the trees of `s`.
pub open spec fn forest_size(s: Seq<File>) -> nat
    decreases s,
{
    if s.len() == 0 {
        0
    } else {
        forest_size(s.drop_last()) + tree_size(s.last())
    }
}

pub proof fn lemma_forest_size(s: Seq<File>, i: int)
    requires
        0 <= i < s.len(),
    ensures
        tree_size(s[i]) <= forest_size(s),
        forest_size(s.take(i)) + tree_size(s[i]) <= forest_size(s),
    decreases s.len(),
{
    if i < s.len() - 1 {
        lemma_forest_size(s.drop_last(), i);
        assert(s.drop_last()[i] == s[i]);
        assert(s.drop_last().take(i) == s.take(i));
    } else {
        assert(s.drop_last() == s.take(i));
    }
}

/// Whether the name of the entry, in lower case, contains the query in lower case.
pub open spec fn name_matches(f: File, query: Seq<char>) -> bool {
    match spec_file_name(f.entry@) {
        Some(n) => contains_seq(spec_to_lowercase(n), spec_to_lowercase(query)),
        None => false,
    }
}

/// Whether the entry stays in a search: its name matches or one of its
/// descendants stays.
pub open spec fn kept(f: File, query: Seq<char>) -> bool
    decreases f,
{
    name_matches(f, query) || match f.children {
        Some(c) => any_kept(c@, query),
        None => false,
    }
}

/// Whether one of the entries of `s` stays in a search.
pub open spec fn any_kept(s: Seq<File>, query: Seq<char>) -> bool
    decreases s,
{
    if s.len() == 0 {
        false
    } else {
        any_kept(s.drop_last(), query) || kept(s.last(), query)
    }
}

/// `r` is the result of searching the tree `f` for `query`: the entries that
/// stay, with their open state, and under each the entries of its own that
/// stay (no list when none does).
pub open spec fn filtered(f: File, query: Seq<char>, r: Option<File>) -> bool
    decreases f,
{
    if kept(f, query) {
        &&& r is Some
        &&& r->0.entry@ == f.entry@
        &&& r->0.open == f.open
        &&& match f.children {
            Some(c) => if any_kept(c@, query) {
                &&& r->0.children is Some
                &&& filtered_forest(c@, query, r->0.children->0@)
            } else {
                r->0.children is None
            },
            None => r->0.children is None,
        }
    } else {
        r is None
    }
}

/// `out` is the result of searching each tree of `s`, keeping those that stay, in order.
pub open spec fn filtered_forest(s: Seq<File>, query: Seq<char>, out: Seq<File>) -> bool
    decreases s,
{
    if s.len() == 0 {
        out.len() == 0
    } else if kept(s.last(), query) {
        &&& out.len() > 0
        &&& filtered_forest(s.drop_last(), query, out.drop_last())
        &&& filtered(s.last(), query, Some(out.last()))
    } else {
        filtered_forest(s.drop_last(), query, out)
    }
}

/// Whether an entry's file name, already in lower case (`None` when the
/// path has no file name), holds the lower-case search text.
pub fn lowered_name_matches(lower_name: Option<String>, lower_query: &String) -> (r: bool)
    ensures
        r == match lower_name {
            Some(n) => contains_seq(n@, lower_query@),
            None => false,
        },
{
    match lower_name {
        Some(n) => {
            let hay = chars_of(n.as_str());
            let needle = chars_of(lower_query.as_str());
            contains_substring(&hay, &needle)
        },
        None => false,
    }
}

/// Searches the tree `file` for `query`; entries whose children were not read
/// count as having none.
pub fn filter_files(file: &File, query: &str) -> (r: Option<File>)
    ensures
        filtered(*file, query@, r),
    decreases tree_size(*file),
{
    let lower_name = match path_file_name(file.entry.as_str()) {
        Some(name) => Some(to_lowercase(name.as_str())),
        None => None,
    };
    let name_matches = lowered_name_matches(lower_name, &to_lowercase(query));
    let ghost cs = children_of(*file);
    let mut matching: Vec<File> = Vec::new();
    match &file.children {
        Some(children) => {
            assert(tree_size(*file) == 1 + forest_size(cs));
            let mut i: usize = 0;
            while i < children.len()
                invariant
                    i <= children.len(),
                    cs == children@,
                    tree_size(*file) == 1 + forest_size(cs),
                    filtered_forest(cs.take(i as int), query@, matching@),
                    any_kept(cs.take(i as int), query@) <==> matching@.len() > 0,
                decreases children.len() - i,
            {
                proof {
                    lemma_forest_size(cs, i as int);
                }
                assert(cs.take(i + 1).drop_last() == cs.take(i as int));
                assert(cs.take(i + 1).last() == cs[i as int]);
                let ghost m0 = matching@;
                match filter_files(&children[i], query) {
                    Some(c) => {
                        matching.push(c);
                        assert(matching@.drop_last() == m0);
                    },
                    None => {},
                }
                i = i + 1;
            }
            assert(cs.take(i as int) == cs);
        },
        None => {},
    }
    let filtered_children = if matching.len() == 0 {
        None
    } else {
        Some(matching)
    };
    if name_matches || filtered_children.is_some() {
        Some(File { entry: file.entry.clone(), open: file.open, children: filtered_children })
    } else {
        None
    }
}


/// The name by which an entry is sorted: its file name, or the empty text
/// when the path has none.
pub open spec fn sort_key(f: File) -> Seq<char> {
    match spec_file_name(f.entry@) {
        Some(n) => n,
        None => Seq::empty(),
    }
}

/// Lexicographic order on texts, character by character (by code point,
/// which for UTF-8 text is also the order of the bytes).
pub open spec fn lex_le(a: Seq<char>, b: Seq<char>) -> bool
    decreases a.len(),
{
    if a.len() == 0 {
        true
    } else if b.len() == 0 {
        false
    } else if a[0] != b[0] {
        a[0] < b[0]
    } else {
        lex_le(a.drop_first(), b.drop_first())
    }
}

/// `s` with `f` inserted after the last entry whose key is not greater than
/// that of `f`, scanning from the end.
pub open spec fn insert_sorted(s: Seq<File>, f: File) -> Seq<File>
    decreases s.len(),
{
    if s.len() == 0 {
        seq![f]
    } else if lex_le(sort_key(s.last()), sort_key(f)) {
        s.push(f)
    } else {
        insert_sorted(s.drop_last(), f).push(s.last())
    }
}

/// The entries of `s` sorted by name, entries with equal names keeping
/// their order (a stable sort).
pub open spec fn sorted_by_name(s: Seq<File>) -> Seq<File>
    decreases s.len(),
{
    if s.len() == 0 {
        s
    } else {
        insert_sorted(sorted_by_name(s.drop_last()), s.last())
    }
}

/// The sort key of an entry.
fn key_of(f: &File) -> (k: Vec<char>)
    ensures
        k@ == sort_key(*f),
{
    match path_file_name(f.entry.as_str()) {
        Some(n) => chars_of(n.as_str()),
        None => Vec::new(),
    }
}

/// Whether `a` comes before `b` or equals it, character by character.
fn text_le(a: &Vec<char>, b: &Vec<char>) -> (r: bool)
    ensures
        r == lex_le(a@, b@),
{
    let mut i: usize = 0;
    assert(a@.skip(0) == a@);
    assert(b@.skip(0) == b@);
    while i < a.len() && i < b.len()
        invariant
            i <= a.len(),
            i <= b.len(),
            lex_le(a@, b@) == lex_le(a@.skip(i as int), b@.skip(i as int)),
        decreases a.len() - i,
    {
        assert(a@.skip(i as int)[0] == a@[i as int]);
        assert(b@.skip(i as int)[0] == b@[i as int]);
        if a[i] != b[i] {
            return a[i] < b[i];
        }
        assert(a@.skip(i as int).drop_first() == a@.skip(i + 1));
        assert(b@.skip(i as int).drop_first() == b@.skip(i + 1));
        i = i + 1;
    }
    i == a.len()
}

/// Sorts the entries of a directory by file name, as the browser lists
/// them; entries with the same name keep their order.
pub fn sort_entries(entries: Vec<File>) -> (r: Vec<File>)
    ensures
        r@ == sorted_by_name(entries@),
{
    let ghost orig = entries@;
    let n = entries.len();
    let mut rest = entries;
    let mut r: Vec<File> = Vec::new();
    let mut i: usize = 0;
    while rest.len() > 0
        invariant
            i <= orig.len(),
            orig.len() == n,
            rest@ == orig.skip(i as int),
            r@ == sorted_by_name(orig.take(i as int)),
        decreases rest.len(),
    {
        let f = rest.remove(0);
        assert(f == orig[i as int]);
        assert(orig.take(i + 1).drop_last() == orig.take(i as int));
        assert(orig.take(i + 1).last() == f);
        assert(rest@ == orig.skip(i + 1));
        let k = key_of(&f);
        let ghost before = r@;
        let mut j: usize = r.len();
        let mut found = false;
        assert(before.take(j as int) == before);
        assert(before.skip(j as int) =~= Seq::<File>::empty());
        assert(insert_sorted(before, f) + Seq::<File>::empty() =~= insert_sorted(before, f));
        while j > 0 && !found
            invariant
                j <= r@.len(),
                r@ == before,
                k@ == sort_key(f),
                insert_sorted(before, f) == insert_sorted(before.take(j as int), f) + before.skip(j as int),
                found ==> j > 0 && lex_le(sort_key(before[j - 1]), sort_key(f)),
            decreases j + (if found { 0int } else { 1int }),
        {
            let kj = key_of(&r[j - 1]);
            if text_le(&kj, &k) {
                found = true;
            } else {
                assert(before.take(j as int).drop_last() == before.take(j - 1));
                assert(before.take(j as int).last() == before[j - 1]);
                assert(insert_sorted(before.take(j as int), f) == insert_sorted(before.take(j - 1), f).push(
                    before[j - 1],
                ));
                assert(before.skip(j - 1) =~= seq![before[j - 1]] + before.skip(j as int));
                assert(insert_sorted(before.take(j - 1), f) + before.skip(j - 1) =~= insert_sorted(
                    before.take(j - 1),
                    f,
                ).push(before[j - 1]) + before.skip(j as int));
                j = j - 1;
            }
        }
        proof {
            if j > 0 {
                assert(before.take(j as int).last() == before[j - 1]);
            } else {
                assert(before.take(0) =~= Seq::<File>::empty());
            }
            assert(insert_sorted(before.take(j as int), f) == before.take(j as int).push(f));
        }
        r.insert(j, f);
        assert(r@ =~= before.take(j as int).push(f) + before.skip(j as int));
        i = i + 1;
    }
    assert(orig.take(i as int) == orig) by {
        assert(orig.skip(i as int).len() == 0);
    }
    r
}

/// Whether the entries of `s` come in the order of their names.
pub open spec fn sorted_keys(s: Seq<File>) -> bool {
    forall|i: int, j: int| 0 <= i < j < s.len() ==> lex_le(sort_key(s[i]), sort_key(s[j]))
}

/// Any two texts are ordered one way or the other.
pub proof fn lemma_lex_total(a: Seq<char>, b: Seq<char>)
    ensures
        lex_le(a, b) || lex_le(b, a),
    decreases a.len(),
{
    if a.len() > 0 && b.len() > 0 {
        if a[0] == b[0] {
            lemma_lex_total(a.drop_first(), b.drop_first());
        }
    }
}

/// The order of texts is transitive.
pub proof fn lemma_lex_trans(a: Seq<char>, b: Seq<char>, c: Seq<char>)
    requires
        lex_le(a, b),
        lex_le(b, c),
    ensures
        lex_le(a, c),
    decreases a.len(),
{
    if a.len() > 0 && b.len() > 0 && c.len() > 0 && a[0] == b[0] && b[0] == c[0] {
        lemma_lex_trans(a.drop_first(), b.drop_first(), c.drop_first());
    }
}

/// Inserting an entry adds it to the entries, and keeps them in order of
/// their names if they were; an upper bound of the names of all of them
/// bounds the result.
pub proof fn lemma_insert_sorted(s: Seq<File>, f: File, bound: Seq<char>)
    ensures
        insert_sorted(s, f).to_multiset() == s.to_multiset().insert(f),
        sorted_keys(s) ==> sorted_keys(insert_sorted(s, f)),
        (forall|i: int| 0 <= i < s.len() ==> lex_le(sort_key(#[trigger] s[i]), bound)) && lex_le(
            sort_key(f),
            bound,
        ) ==> (forall|i: int| 0 <= i < insert_sorted(s, f).len() ==> lex_le(
            sort_key(#[trigger] insert_sorted(s, f)[i]),
            bound,
        )),
        insert_sorted(s, f).len() == s.len() + 1,
    decreases s.len(),
{
    broadcast use vstd::seq_lib::group_to_multiset_ensures;

    if s.len() == 0 {
        assert(seq![f] =~= Seq::<File>::empty().push(f));
    } else {
        let x = s.last();
        let r = s.drop_last();
        assert(r.push(x) =~= s);
        if lex_le(sort_key(x), sort_key(f)) {
            if sorted_keys(s) {
                assert forall|i: int, j: int| 0 <= i < j < s.push(f).len() implies lex_le(
                    sort_key(s.push(f)[i]),
                    sort_key(s.push(f)[j]),
                ) by {
                    if j == s.len() {
                        if i < s.len() - 1 {
                            lemma_lex_trans(sort_key(s[i]), sort_key(x), sort_key(f));
                        }
                    }
                }
            }
        } else {
            lemma_insert_sorted(r, f, bound);
            lemma_lex_total(sort_key(x), sort_key(f));
            let u = insert_sorted(r, f);
            assert(insert_sorted(s, f) == u.push(x));
            assert(u.push(x).to_multiset() =~= u.to_multiset().insert(x));
            assert(s.to_multiset() =~= r.to_multiset().insert(x));
            if sorted_keys(s) {
                lemma_insert_sorted(r, f, sort_key(x));
                assert forall|i: int| 0 <= i < r.len() implies lex_le(sort_key(#[trigger] r[i]), sort_key(x)) by {
                    assert(r[i] == s[i]);
                }
                assert(sorted_keys(r)) by {
                    assert forall|i: int, j: int| 0 <= i < j < r.len() implies lex_le(
                        sort_key(r[i]),
                        sort_key(r[j]),
                    ) by {
                        assert(r[i] == s[i] && r[j] == s[j]);
                    }
                }
                assert forall|i: int, j: int| 0 <= i < j < u.push(x).len() implies lex_le(
                    sort_key(u.push(x)[i]),
                    sort_key(u.push(x)[j]),
                ) by {
                    if j == u.len() {
                        assert(u.push(x)[i] == u[i]);
                    }
                }
            }
            if (forall|i: int| 0 <= i < s.len() ==> lex_le(sort_key(#[trigger] s[i]), bound)) && lex_le(
                sort_key(f),
                bound,
            ) {
                assert forall|i: int| 0 <= i < r.len() implies lex_le(sort_key(#[trigger] r[i]), bound) by {
                    assert(r[i] == s[i]);
                }
                assert(lex_le(sort_key(s[s.len() - 1]), bound));
                assert forall|i: int| 0 <= i < u.push(x).len() implies lex_le(
                    sort_key(#[trigger] u.push(x)[i]),
                    bound,
                ) by {
                    if i < u.len() {
                        assert(u.push(x)[i] == u[i]);
                    }
                }
            }
        }
    }
}

/// Sorting the entries of a directory keeps every entry and lists them in
/// the order of their names.
pub proof fn law_sorted_entries(s: Seq<File>)
    ensures
        sorted_by_name(s).to_multiset() == s.to_multiset(),
        sorted_keys(sorted_by_name(s)),
    decreases s.len(),
{
    broadcast use vstd::seq_lib::group_to_multiset_ensures;

    if s.len() == 0 {
    } else {
        law_sorted_entries(s.drop_last());
        lemma_insert_sorted(sorted_by_name(s.drop_last()), s.last(), sort_key(s.last()));
        assert(s.drop_last().push(s.last()) =~= s);
    }
}
} // verus!
