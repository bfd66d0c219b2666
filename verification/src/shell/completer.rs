//! The registry of command names and the completions offered for the word
//! under the cursor.

use vstd::prelude::*;
use vstd::string::StringSliceAdditionalSpecFns;
use vstd::utf8::{
    decode_utf8, encode_utf8, encode_utf8_decode_utf8, encode_utf8_valid_utf8, is_char_boundary,
};
use crate::utils::text::{
    blank, has_prefix, is_space, is_whitespace, lemma_precedes_irreflexive,
    lemma_precedes_transitive, names, order_of, precedes, Standing,
};

verus! {

/// What a directory entry is, as the file system reports it.
#[derive(Clone, Copy, Debug, PartialEq, Eq)]
pub enum EntryKind {
    File,
    Directory,
    Other,
}

/// One entry of a directory listing: its base name and its kind.
#[derive(Clone, Debug, PartialEq, Eq)]
pub struct DirEntry {
    pub name: String,
    pub kind: EntryKind,
}

/// One proposed completion: the text shown in the list of candidates and the
/// text put into the line when it is accepted.
#[derive(Clone, Debug, PartialEq, Eq)]
pub struct CompletionCandidate {
    pub display: String,
    pub replacement: String,
}

/// Completes command names from a registry built once, and file names from
/// directory listings.
#[derive(Clone, Debug)]
pub struct FilePathAndCommandCompleter {
    commands: Vec<String>,
}

/// Each string precedes all that come after it: sorted, and nothing twice.
pub open spec fn ascending(v: Seq<Seq<char>>) -> bool {
    forall|i: int, j: int| 0 <= i < j < v.len() ==> precedes(#[trigger] v[i], #[trigger] v[j])
}

/// `n` is the name of a regular file in one of the listings.
pub open spec fn is_file_name(listings: Seq<Vec<DirEntry>>, n: Seq<char>) -> bool {
    exists|i: int, j: int|
        0 <= i < listings.len() && 0 <= j < listings[i]@.len() && (#[trigger] listings[i]@[j]).kind
            == EntryKind::File && listings[i]@[j].name@ == n
}

/// Each candidate shows and substitutes the text at its place in `texts`.
pub open spec fn shows(candidates: Seq<CompletionCandidate>, texts: Seq<Seq<char>>) -> bool {
    candidates.len() == texts.len() && forall|i: int|
        0 <= i < candidates.len() ==> (#[trigger] candidates[i]).display@ == texts[i]
            && candidates[i].replacement@ == texts[i]
}

/// The text offered for a directory entry: its name, and after the name of a
/// directory the separator `/`.
pub open spec fn entry_text(e: DirEntry) -> Seq<char> {
    if e.kind == EntryKind::Directory {
        e.name@.push('/')
    } else {
        e.name@
    }
}

/// The texts offered for a directory listing, entry by entry.
pub open spec fn path_texts(entries: Seq<DirEntry>) -> Seq<Seq<char>> {
    Seq::new(entries.len(), |i: int| entry_text(entries[i]))
}

/// The command names that start with `partial`, in the registry's order.
pub open spec fn matching(commands: Seq<Seq<char>>, partial: Seq<char>) -> Seq<Seq<char>> {
    commands.filter(|c: Seq<char>| partial.is_prefix_of(c))
}

/// Where the word under the cursor starts, for the text `head` before the
/// cursor: after the last whitespace character, or at 0 if there is none.
pub open spec fn word_start(head: Seq<char>) -> int
    decreases head.len(),
{
    if head.len() == 0 || is_whitespace(head.last()) {
        head.len() as int
    } else {
        word_start(head.drop_last())
    }
}

/// The word under the cursor: what stands between the last whitespace and
/// the cursor. It is empty where the cursor follows whitespace.
pub open spec fn partial_word(head: Seq<char>) -> Seq<char> {
    head.skip(word_start(head))
}

/// The directory whose listing completes `path`: `path` itself where it is a
/// directory, else its parent, and the current directory where it has none.
pub open spec fn chosen_directory(path: Seq<char>, is_dir: bool, parent: Option<Seq<char>>) -> Seq<
    char,
> {
    if is_dir {
        path
    } else {
        match parent {
            Some(p) => if p.len() > 0 {
                p
            } else {
                seq!['.']
            },
            None => seq!['.'],
        }
    }
}

/// The text before a cursor that stands `pos` bytes into `line`.
pub open spec fn text_before(line: &str, pos: usize) -> Seq<char> {
    decode_utf8(line.spec_bytes().subrange(0, pos as int))
}

/// The completions for the text `head` before the cursor: the byte of the
/// line from which to replace, and the candidate texts in order. On a blank
/// text, every command from 0. On the first word, from where the word
/// starts, the commands that start with it and then the listing. On a later
/// word, from where the word starts, the listing alone.
pub open spec fn completion(commands: Seq<Seq<char>>, head: Seq<char>, entries: Seq<DirEntry>) -> (
    int,
    Seq<Seq<char>>,
) {
    let start = word_start(head);
    let start_byte = encode_utf8(head.take(start)).len() as int;
    if blank(head) {
        (0, commands)
    } else if blank(head.take(start)) {
        (start_byte, matching(commands, partial_word(head)) + path_texts(entries))
    } else {
        (start_byte, path_texts(entries))
    }
}

/// A text is encoded piece by piece.
pub proof fn lemma_encode_concat(a: Seq<char>, b: Seq<char>)
    ensures
        encode_utf8(a + b) == encode_utf8(a) + encode_utf8(b),
    decreases a.len(),
{
    if a.len() == 0 {
        assert(a + b =~= b);
        assert(encode_utf8(a) + encode_utf8(b) =~= encode_utf8(b));
    } else {
        lemma_encode_concat(a.drop_first(), b);
        assert((a + b).drop_first() =~= a.drop_first() + b);
        assert((a + b)[0] == a[0]);
        assert(encode_utf8(a + b) =~= encode_utf8(a) + encode_utf8(b));
    }
}

/// The replaced text reaches from the start of the word under the cursor to
/// the cursor: the place to replace from and the bytes of that word make up
/// the bytes before the cursor.
pub proof fn lemma_replaced_word(head: Seq<char>)
    ensures
        encode_utf8(head.take(word_start(head))).len() + encode_utf8(partial_word(head)).len()
            == encode_utf8(head).len(),
{
    lemma_word_start(head, 0);
    let start = word_start(head);
    lemma_encode_concat(head.take(start), head.skip(start));
    assert(head.take(start) + head.skip(start) =~= head);
}

/// An ascending sequence of names holds no name twice.
pub proof fn lemma_ascending_distinct(v: Seq<Seq<char>>)
    requires
        ascending(v),
    ensures
        forall|i: int, j: int| 0 <= i < v.len() && 0 <= j < v.len() && i != j ==> v[i] != v[j],
{
    assert forall|i: int, j: int| 0 <= i < v.len() && 0 <= j < v.len() && i != j implies v[i]
        != v[j] by {
        lemma_precedes_irreflexive(v[i]);
        if i < j {
            assert(precedes(v[i], v[j]));
        } else {
            assert(precedes(v[j], v[i]));
        }
    }
}

proof fn lemma_earlier_names(v: Seq<Seq<char>>, w: Seq<Seq<char>>, n: Seq<char>)
    requires
        ascending(v),
        v.len() > 0,
        w.len() > 0,
        v.last() == w.last(),
        forall|m: Seq<char>| v.contains(m) ==> w.contains(m),
        v.drop_last().contains(n),
    ensures
        w.drop_last().contains(n),
{
    let k = choose|k: int| 0 <= k < v.drop_last().len() && v.drop_last()[k] == n;
    assert(v[k] == n);
    assert(precedes(v[k], v[v.len() - 1]));
    lemma_precedes_irreflexive(n);
    assert(v.contains(n));
    let m = choose|m: int| 0 <= m < w.len() && w[m] == n;
    assert(w.drop_last()[m] == n);
}

/// Two ascending sequences that hold the same names are one sequence: what
/// a registry holds fixes the registry.
pub proof fn lemma_ascending_unique(v: Seq<Seq<char>>, w: Seq<Seq<char>>)
    requires
        ascending(v),
        ascending(w),
        forall|n: Seq<char>| v.contains(n) <==> w.contains(n),
    ensures
        v == w,
    decreases v.len(),
{
    if v.len() == 0 {
        if w.len() > 0 {
            assert(w.contains(w[0]));
        }
        assert(v =~= w);
    } else {
        assert(v.contains(v[v.len() - 1]));
        let j = choose|j: int| 0 <= j < w.len() && w[j] == v.last();
        assert(w.contains(w[w.len() - 1]));
        let i = choose|i: int| 0 <= i < v.len() && v[i] == w.last();
        if j < w.len() - 1 {
            assert(precedes(w[j], w[w.len() - 1]));
            if i < v.len() - 1 {
                assert(precedes(v[i], v[v.len() - 1]));
                lemma_precedes_transitive(v.last(), w.last(), v.last());
            }
            lemma_precedes_irreflexive(v.last());
        }
        let v2 = v.drop_last();
        let w2 = w.drop_last();
        assert(ascending(v2)) by {
            assert forall|a: int, b: int| 0 <= a < b < v2.len() implies precedes(
                #[trigger] v2[a],
                #[trigger] v2[b],
            ) by {
                assert(precedes(v[a], v[b]));
            }
        }
        assert(ascending(w2)) by {
            assert forall|a: int, b: int| 0 <= a < b < w2.len() implies precedes(
                #[trigger] w2[a],
                #[trigger] w2[b],
            ) by {
                assert(precedes(w[a], w[b]));
            }
        }
        assert forall|n: Seq<char>| v2.contains(n) <==> w2.contains(n) by {
            if v2.contains(n) {
                lemma_earlier_names(v, w, n);
            }
            if w2.contains(n) {
                lemma_earlier_names(w, v, n);
            }
        }
        lemma_ascending_unique(v2, w2);
        assert(v =~= v2.push(v.last()));
        assert(w =~= w2.push(w.last()));
    }
}

/// A name is offered for a partial word exactly when the registry holds it
/// and it starts with the partial word.
pub proof fn lemma_matching_holds(commands: Seq<Seq<char>>, partial: Seq<char>, c: Seq<char>)
    ensures
        matching(commands, partial).contains(c) <==> (commands.contains(c) && partial.is_prefix_of(
            c,
        )),
    decreases commands.len(),
{
    reveal(Seq::filter);
    if commands.len() > 0 {
        let shorter = commands.drop_last();
        let last = commands.last();
        let kept = matching(shorter, partial);
        let all = matching(commands, partial);
        lemma_matching_holds(shorter, partial, c);
        if all.contains(c) {
            let i = choose|i: int| 0 <= i < all.len() && all[i] == c;
            if i < kept.len() {
                assert(kept[i] == c);
                let j = choose|j: int| 0 <= j < shorter.len() && shorter[j] == c;
                assert(commands[j] == c);
            } else {
                assert(commands[commands.len() - 1] == c);
            }
        }
        if commands.contains(c) && partial.is_prefix_of(c) {
            let j = choose|j: int| 0 <= j < commands.len() && commands[j] == c;
            if j < shorter.len() {
                assert(shorter[j] == c);
                let i = choose|i: int| 0 <= i < kept.len() && kept[i] == c;
                assert(all[i] == c);
            } else {
                assert(all[kept.len() as int] == c);
            }
        }
    }
}

/// The word under the cursor holds no whitespace and follows whitespace or
/// the start of the text, and no other place has both properties.
pub proof fn lemma_word_start(head: Seq<char>, k: int)
    ensures
        0 <= word_start(head) <= head.len(),
        forall|i: int| word_start(head) <= i < head.len() ==> !is_whitespace(#[trigger] head[i]),
        word_start(head) > 0 ==> is_whitespace(head[word_start(head) - 1]),
        (0 <= k <= head.len() && (k > 0 ==> is_whitespace(head[k - 1])) && forall|i: int|
            k <= i < head.len() ==> !is_whitespace(#[trigger] head[i])) ==> k == word_start(head),
    decreases head.len(),
{
    if head.len() == 0 || is_whitespace(head.last()) {
    } else {
        let shorter = head.drop_last();
        lemma_word_start(shorter, k);
        let s = word_start(shorter);
        assert forall|i: int| s <= i < head.len() implies !is_whitespace(#[trigger] head[i]) by {
            if i < shorter.len() {
                assert(head[i] == shorter[i]);
            }
        }
        if s > 0 {
            assert(head[s - 1] == shorter[s - 1]);
        }
        if 0 <= k <= head.len() && (k > 0 ==> is_whitespace(head[k - 1])) && forall|i: int|
            k <= i < head.len() ==> !is_whitespace(#[trigger] head[i]) {
            if s < k {
                assert(!is_whitespace(head[k - 1]));
            } else if k < s {
                assert(!is_whitespace(head[s - 1]));
            }
        }
    }
}

/// The text before the cursor is blank exactly when the word under the
/// cursor is empty and nothing but whitespace stands before it.
pub proof fn lemma_blank_head(head: Seq<char>)
    ensures
        blank(head) <==> (word_start(head) == head.len() && blank(head.take(word_start(head)))),
{
    lemma_word_start(head, 0);
    let s = word_start(head);
    if s == head.len() {
        assert(head.take(s) =~= head);
    } else {
        assert(!is_whitespace(head[s]));
    }
}

/// The parent of the file path `path`, as `std::path::Path::parent` gives
/// it: the path without its last component, and `None` where the path ends
/// in a root or a prefix, or is empty.
pub uninterp spec fn parent_path(path: Seq<char>) -> Option<Seq<char>>;

/// Calls `std::path::Path::parent` on `path`. The result is taken on trust
/// to be `parent_path` of the path's characters; nothing more is claimed of
/// it.
#[verifier::external_body]
fn parent_of(path: &str) -> (r: Option<String>)
    ensures
        r matches Some(p) ==> parent_path(path@) == Some(p@),
        r is None ==> parent_path(path@) is None,
{
    match std::path::Path::new(path).parent() {
        Some(p) => Some(p.to_string_lossy().into_owned()),
        None => None,
    }
}

/// Picks the directory to list for `path`, given whether `path` is a
/// directory and what its parent is.
pub fn choose_directory(path: &str, is_dir: bool, parent: Option<&str>) -> (r: String)
    ensures
        r@ == chosen_directory(
            path@,
            is_dir,
            match parent {
                Some(p) => Some(p@),
                None => None,
            },
        ),
{
    if is_dir {
        return path.to_owned();
    }
    proof {
        reveal_strlit(".");
        assert("."@ =~= seq!['.']);
    }
    match parent {
        Some(p) => {
            if p.unicode_len() > 0 {
                p.to_owned()
            } else {
                ".".to_owned()
            }
        },
        None => ".".to_owned(),
    }
}

/// The directory to list for `path`: `path` itself where `is_dir` says that
/// it is a directory, else its parent, and the current directory where it
/// has none.
pub fn directory_to_list(path: &str, is_dir: bool) -> (r: String)
    ensures
        r@ == chosen_directory(path@, is_dir, parent_path(path@)),
        !is_dir ==> r@.len() > 0,
{
    if is_dir {
        choose_directory(path, true, None)
    } else {
        match parent_of(path) {
            Some(p) => choose_directory(path, false, Some(p.as_str())),
            None => choose_directory(path, false, None),
        }
    }
}

/// Puts `name` into the ascending vector `commands`, unless it is there.
pub fn insert_name(commands: &mut Vec<String>, name: &str)
    requires
        ascending(names(old(commands)@)),
    ensures
        ascending(names(final(commands)@)),
        forall|n: Seq<char>|
            names(final(commands)@).contains(n) <==> (names(old(commands)@).contains(n) || n
                == name@),
{
    let ghost before = names(commands@);
    let mut p: usize = 0;
    let mut placed: bool = false;
    while p < commands.len() && !placed
        invariant
            p <= commands@.len(),
            names(commands@) == before,
            ascending(before),
            *commands == *old(commands),
            forall|i: int| 0 <= i < p ==> precedes(#[trigger] before[i], name@),
            placed ==> p < commands@.len() && precedes(name@, before[p as int]),
        decreases commands@.len() - p + (if placed { 0int } else { 1int }),
    {
        match order_of(commands[p].as_str(), name) {
            Standing::Before => {
                p += 1;
            },
            Standing::Same => {
                assert(before[p as int] == name@);
                assert(before.contains(name@));
                return ;
            },
            Standing::After => {
                placed = true;
            },
        }
    }
    commands.insert(p, name.to_owned());
    proof {
        let after = names(commands@);
        assert(after =~= before.insert(p as int, name@));
        assert forall|i: int, j: int| 0 <= i < j < after.len() implies precedes(
            #[trigger] after[i],
            #[trigger] after[j],
        ) by {
            if j < p {
                assert(after[i] == before[i] && after[j] == before[j]);
            } else if j == p {
                assert(after[i] == before[i]);
            } else if i < p {
                assert(after[i] == before[i] && after[j] == before[j - 1]);
            } else if i == p {
                assert(after[j] == before[j - 1]);
                if j - 1 > p {
                    lemma_precedes_transitive(name@, before[p as int], before[j - 1]);
                }
            } else {
                assert(after[i] == before[i - 1] && after[j] == before[j - 1]);
            }
        }
        assert forall|n: Seq<char>| after.contains(n) <==> (before.contains(n) || n == name@) by {
            if after.contains(n) {
                let i = choose|i: int| 0 <= i < after.len() && after[i] == n;
                if i < p {
                    assert(before[i] == n);
                } else if i > p {
                    assert(before[i - 1] == n);
                }
            }
            if before.contains(n) {
                let i = choose|i: int| 0 <= i < before.len() && before[i] == n;
                if i < p {
                    assert(after[i] == n);
                } else {
                    assert(after[i + 1] == n);
                }
            }
            if n == name@ {
                assert(after[p as int] == n);
            }
        }
    }
}

/// `n` is the name of a regular file among the entries that come before
/// entry `j` of listing `i`: in an earlier listing, or earlier in listing `i`.
pub open spec fn found_before(listings: Seq<Vec<DirEntry>>, i: int, j: int, n: Seq<char>) -> bool {
    exists|a: int, b: int|
        0 <= a < listings.len() && 0 <= b < listings[a]@.len() && (a < i || (a == i && b < j)) && (
        #[trigger] listings[a]@[b]).kind == EntryKind::File && listings[a]@[b].name@ == n
}

proof fn lemma_found_next_entry(listings: Seq<Vec<DirEntry>>, i: int, j: int, n: Seq<char>)
    requires
        0 <= i < listings.len(),
        0 <= j < listings[i]@.len(),
    ensures
        found_before(listings, i, j + 1, n) <==> (found_before(listings, i, j, n) || (
        listings[i]@[j].kind == EntryKind::File && listings[i]@[j].name@ == n)),
{
    if found_before(listings, i, j + 1, n) {
        let (a, b) = choose|a: int, b: int|
            0 <= a < listings.len() && 0 <= b < listings[a]@.len() && (a < i || (a == i && b < j
                + 1)) && (#[trigger] listings[a]@[b]).kind == EntryKind::File
                && listings[a]@[b].name@ == n;
        if !(a == i && b == j) {
            assert(found_before(listings, i, j, n));
        }
    }
    if found_before(listings, i, j, n) {
        let (a, b) = choose|a: int, b: int|
            0 <= a < listings.len() && 0 <= b < listings[a]@.len() && (a < i || (a == i && b < j))
                && (#[trigger] listings[a]@[b]).kind == EntryKind::File && listings[a]@[b].name@
                == n;
        assert(found_before(listings, i, j + 1, n));
    }
    if listings[i]@[j].kind == EntryKind::File && listings[i]@[j].name@ == n {
        assert(found_before(listings, i, j + 1, n));
    }
}

proof fn lemma_found_next_listing(listings: Seq<Vec<DirEntry>>, i: int, n: Seq<char>)
    requires
        0 <= i < listings.len(),
    ensures
        found_before(listings, i, listings[i]@.len() as int, n) <==> found_before(
            listings,
            i + 1,
            0,
            n,
        ),
{
    let m = listings[i]@.len() as int;
    if found_before(listings, i, m, n) {
        let (a, b) = choose|a: int, b: int|
            0 <= a < listings.len() && 0 <= b < listings[a]@.len() && (a < i || (a == i && b < m))
                && (#[trigger] listings[a]@[b]).kind == EntryKind::File && listings[a]@[b].name@
                == n;
        assert(found_before(listings, i + 1, 0, n));
    }
    if found_before(listings, i + 1, 0, n) {
        let (a, b) = choose|a: int, b: int|
            0 <= a < listings.len() && 0 <= b < listings[a]@.len() && (a < i + 1 || (a == i + 1
                && b < 0)) && (#[trigger] listings[a]@[b]).kind == EntryKind::File
                && listings[a]@[b].name@ == n;
        assert(found_before(listings, i, m, n));
    }
}

proof fn lemma_found_all(listings: Seq<Vec<DirEntry>>, n: Seq<char>)
    ensures
        found_before(listings, listings.len() as int, 0, n) <==> is_file_name(listings, n),
        !found_before(listings, 0, 0, n),
{
    if found_before(listings, listings.len() as int, 0, n) {
        let (a, b) = choose|a: int, b: int|
            0 <= a < listings.len() && 0 <= b < listings[a]@.len() && (a < listings.len() || (a
                == listings.len() && b < 0)) && (#[trigger] listings[a]@[b]).kind
                == EntryKind::File && listings[a]@[b].name@ == n;
        assert(is_file_name(listings, n));
    }
    if is_file_name(listings, n) {
        let (a, b) = choose|a: int, b: int|
            0 <= a < listings.len() && 0 <= b < listings[a]@.len() && (
            #[trigger] listings[a]@[b]).kind == EntryKind::File && listings[a]@[b].name@ == n;
        assert(found_before(listings, listings.len() as int, 0, n));
    }
}

impl View for FilePathAndCommandCompleter {
    type V = Seq<Seq<char>>;

    /// The command names of the registry, in its order.
    closed spec fn view(&self) -> Seq<Seq<char>> {
        names(self.commands@)
    }
}

impl FilePathAndCommandCompleter {
    /// The registry is sorted and holds no name twice.
    pub open spec fn wf(&self) -> bool {
        ascending(self@)
    }

    /// Builds the completer from the listings of the directories on the
    /// search path, one listing for each directory that could be read. With
    /// no listing the registry is empty.
    pub fn new(listings: &Vec<Vec<DirEntry>>) -> (r: Self)
        ensures
            r.wf(),
            forall|n: Seq<char>| r@.contains(n) <==> is_file_name(listings@, n),
            listings@.len() == 0 ==> r@.len() == 0,
    {
        FilePathAndCommandCompleter { commands: Self::load_commands_from_path(listings) }
    }

    /// The names of the regular files in the listings, sorted, each once.
    pub fn load_commands_from_path(listings: &Vec<Vec<DirEntry>>) -> (r: Vec<String>)
        ensures
            ascending(names(r@)),
            forall|n: Seq<char>| names(r@).contains(n) <==> is_file_name(listings@, n),
            listings@.len() == 0 ==> r@.len() == 0,
    {
        let mut commands: Vec<String> = Vec::new();
        let mut i: usize = 0;
        proof {
            assert forall|n: Seq<char>|
                names(commands@).contains(n) <==> found_before(listings@, 0, 0, n) by {
                lemma_found_all(listings@, n);
            }
        }
        while i < listings.len()
            invariant
                i <= listings@.len(),
                ascending(names(commands@)),
                forall|n: Seq<char>|
                    names(commands@).contains(n) <==> found_before(listings@, i as int, 0, n),
            decreases listings@.len() - i,
        {
            let listing = &listings[i];
            let mut j: usize = 0;
            while j < listing.len()
                invariant
                    i < listings@.len(),
                    *listing == listings@[i as int],
                    j <= listing@.len(),
                    ascending(names(commands@)),
                    forall|n: Seq<char>|
                        names(commands@).contains(n) <==> found_before(
                            listings@,
                            i as int,
                            j as int,
                            n,
                        ),
                decreases listing@.len() - j,
            {
                match listing[j].kind {
                    EntryKind::File => {
                        insert_name(&mut commands, listing[j].name.as_str());
                    },
                    _ => {},
                }
                proof {
                    assert forall|n: Seq<char>|
                        names(commands@).contains(n) <==> found_before(
                            listings@,
                            i as int,
                            j + 1,
                            n,
                        ) by {
                        lemma_found_next_entry(listings@, i as int, j as int, n);
                    }
                }
                j += 1;
            }
            proof {
                assert forall|n: Seq<char>|
                    names(commands@).contains(n) <==> found_before(listings@, i + 1, 0, n) by {
                    lemma_found_next_listing(listings@, i as int, n);
                }
            }
            i += 1;
        }
        proof {
            assert forall|n: Seq<char>|
                names(commands@).contains(n) <==> is_file_name(listings@, n) by {
                lemma_found_all(listings@, n);
            }
            if listings@.len() == 0 && commands@.len() > 0 {
                assert(names(commands@).contains(names(commands@)[0]));
            }
        }
        commands
    }

    /// The command names of the registry, in its order.
    pub fn commands(&self) -> (r: &Vec<String>)
        ensures
            names(r@) == self@,
    {
        &self.commands
    }

    /// A candidate for every command of the registry.
    fn all_commands(&self) -> (r: Vec<CompletionCandidate>)
        ensures
            shows(r@, self@),
    {
        let mut out: Vec<CompletionCandidate> = Vec::new();
        let mut i: usize = 0;
        while i < self.commands.len()
            invariant
                i <= self.commands@.len(),
                shows(out@, self@.take(i as int)),
            decreases self.commands@.len() - i,
        {
            let cmd = &self.commands[i];
            out.push(CompletionCandidate { display: cmd.clone(), replacement: cmd.clone() });
            i += 1;
        }
        assert(self@.take(i as int) =~= self@);
        out
    }

    /// A candidate for every command of the registry that starts with
    /// `partial`.
    fn matching_commands(&self, partial: &str) -> (r: Vec<CompletionCandidate>)
        ensures
            shows(r@, matching(self@, partial@)),
    {
        let mut out: Vec<CompletionCandidate> = Vec::new();
        let mut i: usize = 0;
        proof {
            reveal(Seq::filter);
            assert(self@.take(0).len() == 0);
        }
        while i < self.commands.len()
            invariant
                i <= self.commands@.len(),
                shows(out@, matching(self@.take(i as int), partial@)),
            decreases self.commands@.len() - i,
        {
            let cmd = &self.commands[i];
            proof {
                reveal(Seq::filter);
                assert(self@.take(i + 1).drop_last() =~= self@.take(i as int));
                assert(self@.take(i + 1).last() == cmd@);
            }
            if has_prefix(cmd.as_str(), partial) {
                out.push(CompletionCandidate { display: cmd.clone(), replacement: cmd.clone() });
            }
            i += 1;
        }
        assert(self@.take(i as int) =~= self@);
        out
    }

    /// The candidates for a directory listing: each entry's name, and after
    /// the name of a directory the separator `/`. An empty listing, as of a
    /// directory that cannot be read, gives none.
    pub fn complete_path(entries: &Vec<DirEntry>) -> (r: Vec<CompletionCandidate>)
        ensures
            shows(r@, path_texts(entries@)),
    {
        let mut out: Vec<CompletionCandidate> = Vec::new();
        let mut i: usize = 0;
        while i < entries.len()
            invariant
                i <= entries@.len(),
                shows(out@, path_texts(entries@).take(i as int)),
            decreases entries@.len() - i,
        {
            let entry = &entries[i];
            let mut text = entry.name.clone();
            match entry.kind {
                EntryKind::Directory => {
                    proof {
                        reveal_strlit("/");
                    }
                    text.append("/");
                    assert(text@ =~= entry.name@.push('/'));
                },
                _ => {},
            }
            assert(text@ == entry_text(*entry));
            out.push(CompletionCandidate { display: text.clone(), replacement: text });
            i += 1;
        }
        assert(path_texts(entries@).take(i as int) =~= path_texts(entries@));
        out
    }

    /// The word under a cursor that stands `pos` bytes into `line`: the
    /// word whose directory is to be listed before `complete` is called.
    /// `None` where the text before the cursor is blank and no listing is
    /// used.
    pub fn path_to_complete<'a>(line: &'a str, pos: usize) -> (r: Option<&'a str>)
        requires
            is_char_boundary(line.spec_bytes(), pos as int),
        ensures
            r is None <==> blank(text_before(line, pos)),
            r matches Some(p) ==> p@ == partial_word(text_before(line, pos)),
    {
        let head = head_before(line, pos);
        let n = head.unicode_len();
        assert(head@.take(n as int) =~= head@);
        let start = find_word_start(head, n);
        let lead_blank = blank_before(head, start);
        proof {
            lemma_blank_head(head@);
        }
        if lead_blank && start == n {
            None
        } else {
            let partial = head.substring_char(start, n);
            assert(partial@ =~= partial_word(head@));
            Some(partial)
        }
    }

    /// The completions for a cursor that stands `pos` bytes into `line`,
    /// with `entries` the listing of the directory chosen for the word under
    /// the cursor: the byte from which to replace, and the candidates.
    pub fn complete(&self, line: &str, pos: usize, entries: &Vec<DirEntry>) -> (r: (
        usize,
        Vec<CompletionCandidate>,
    ))
        requires
            is_char_boundary(line.spec_bytes(), pos as int),
        ensures
            r.0 == completion(self@, text_before(line, pos), entries@).0,
            shows(r.1@, completion(self@, text_before(line, pos), entries@).1),
            r.0 <= pos,
    {
        let head = head_before(line, pos);
        let n = head.unicode_len();
        assert(head@.take(n as int) =~= head@);
        let start = find_word_start(head, n);
        let lead_blank = blank_before(head, start);
        proof {
            lemma_blank_head(head@);
        }
        if lead_blank && start == n {
            return (0, self.all_commands());
        }
        let partial = head.substring_char(start, n);
        proof {
            assert(partial@ =~= partial_word(head@));
            lemma_replaced_word(head@);
        }
        let start_byte = pos - partial.len();
        if lead_blank {
            let mut out = self.matching_commands(partial);
            let mut paths = Self::complete_path(entries);
            let ghost first = out@;
            let ghost second = paths@;
            out.append(&mut paths);
            assert(shows(out@, matching(self@, partial@) + path_texts(entries@))) by {
                assert(out@ =~= first + second);
            }
            (start_byte, out)
        } else {
            (start_byte, Self::complete_path(entries))
        }
    }

    /// No hint is offered, whatever the line.
    pub fn hint(&self, line: &str, pos: usize) -> (r: Option<String>)
        ensures
            r is None,
    {
        None
    }
}

/// The part of `line` before its byte `pos`.
fn head_before<'a>(line: &'a str, pos: usize) -> (head: &'a str)
    requires
        is_char_boundary(line.spec_bytes(), pos as int),
    ensures
        head@ == text_before(line, pos),
        encode_utf8(head@).len() == pos,
{
    broadcast use {encode_utf8_decode_utf8, encode_utf8_valid_utf8};

    let (head, _) = line.split_at(pos);
    assert(pos <= line.spec_bytes().len());
    assert(head.spec_bytes() == line.spec_bytes().subrange(0, pos as int));
    assert(decode_utf8(encode_utf8(head@)) == head@);
    head
}

/// Finds where the word under the cursor starts.
fn find_word_start(line: &str, pos: usize) -> (start: usize)
    requires
        pos <= line@.len(),
    ensures
        start == word_start(line@.take(pos as int)),
        start <= pos,
{
    let mut j: usize = pos;
    let mut at_start: bool = false;
    while j > 0 && !at_start
        invariant
            j <= pos <= line@.len(),
            forall|i: int| j <= i < pos ==> !is_whitespace(#[trigger] line@[i]),
            at_start ==> j > 0 && is_whitespace(line@[j - 1]),
        decreases j + (if at_start { 0int } else { 1int }),
    {
        if is_space(line.get_char(j - 1)) {
            at_start = true;
        } else {
            j -= 1;
        }
    }
    proof {
        lemma_word_start(line@.take(pos as int), j as int);
    }
    j
}

/// Tells whether the first `upto` characters of `line` are all whitespace.
fn blank_before(line: &str, upto: usize) -> (b: bool)
    requires
        upto <= line@.len(),
    ensures
        b == blank(line@.take(upto as int)),
{
    let mut i: usize = 0;
    while i < upto
        invariant
            i <= upto <= line@.len(),
            forall|k: int| 0 <= k < i ==> is_whitespace(#[trigger] line@[k]),
        decreases upto - i,
    {
        if !is_space(line.get_char(i)) {
            assert(!is_whitespace(line@.take(upto as int)[i as int]));
            return false;
        }
        i += 1;
    }
    assert forall|k: int| 0 <= k < line@.take(upto as int).len() implies is_whitespace(
        #[trigger] line@.take(upto as int)[k],
    ) by {
        assert(line@.take(upto as int)[k] == line@[k]);
    }
    true
}

} // verus!
