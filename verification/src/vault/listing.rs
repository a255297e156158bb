//! The listing of the vault: sealed bundles and plain ones, the newest first.

use crate::order::{law_ranking_sorts, ranked, sorted, Ranked};
use crate::text::same_text;
use vstd::prelude::*;
use vstd::utf8::encode_utf8;

verus! {

/// A file in the vault's directory.
pub struct DirectoryFile {
    /// The name without its extension.
    pub stem: String,
    /// The extension, empty where there is none.
    pub extension: String,
    pub size: u64,
    /// When it was last changed, in seconds since 1970, where that is known.
    pub modified: Option<u64>,
}

/// A line of the listing.
#[derive(Debug)]
pub struct VaultEntry {
    pub name: String,
    pub size: u64,
    pub modified: String,
}

/// The text of a point in time in UTC, as `chrono` writes it with year, month, day, hour, minute and
/// second; `None` where the calendar does not reach.
pub uninterp spec fn utc_text(seconds: i64) -> Option<Seq<char>>;

/// Calls `chrono::DateTime::from_timestamp` and writes the date and time of what it gives. The
/// result depends on the seconds alone; the calendar behind it is left unsaid.
#[verifier::external_body]
fn utc_string(seconds: i64) -> (text: Option<String>)
    ensures
        text is Some <==> utc_text(seconds) is Some,
        text matches Some(t) ==> utc_text(seconds) == Some(t@),
{
    let time = chrono::DateTime::from_timestamp(seconds, 0)?;
    Some(time.format("%Y-%m-%d %H:%M:%S").to_string())
}

/// How a file's last change is shown.
pub open spec fn modified_text(modified: Option<u64>) -> Seq<char> {
    match modified {
        Some(seconds) => match utc_text(seconds as i64) {
            Some(text) => text,
            None => "Unknown"@,
        },
        None => "Unknown"@,
    }
}

fn show_modified(modified: Option<u64>) -> (text: String)
    ensures
        text@ == modified_text(modified),
{
    match modified {
        Some(seconds) => match utc_string(seconds as i64) {
            Some(text) => text,
            None => "Unknown".to_owned(),
        },
        None => "Unknown".to_owned(),
    }
}

/// A line of the listing as its contract sees it.
#[verifier::ext_equal]
pub struct Line {
    pub name: Seq<char>,
    pub size: u64,
    pub modified: Seq<char>,
}

impl View for VaultEntry {
    type V = Line;

    open spec fn view(&self) -> Line {
        Line { name: self.name@, size: self.size, modified: self.modified@ }
    }
}

/// The lines of a list of entries.
pub open spec fn lines_of(entries: Seq<VaultEntry>) -> Seq<Line> {
    entries.map_values(|e: VaultEntry| e@)
}

/// The lines of the files with one extension, in the order of the files, each name with a suffix.
pub open spec fn lines_with(
    files: Seq<DirectoryFile>,
    extension: Seq<char>,
    suffix: Seq<char>,
) -> Seq<Line>
    decreases files.len(),
{
    if files.len() == 0 {
        Seq::empty()
    } else {
        let before = lines_with(files.drop_last(), extension, suffix);
        let file = files.last();
        if file.extension@ == extension {
            before.push(
                Line {
                    name: file.stem@ + suffix,
                    size: file.size,
                    modified: modified_text(file.modified),
                },
            )
        } else {
            before
        }
    }
}

/// The lines in the order in which they are gathered: sealed bundles, then plain ones.
pub open spec fn gathered(files: Seq<DirectoryFile>) -> Seq<Line> {
    lines_with(files, "vault"@, Seq::empty()) + lines_with(files, "json"@, " (unencrypted)"@)
}

/// Whether one byte string stands before another in the dictionary.
pub open spec fn bytes_before(a: Seq<u8>, b: Seq<u8>) -> bool
    decreases a.len(),
{
    if b.len() == 0 {
        false
    } else if a.len() == 0 {
        true
    } else if a[0] != b[0] {
        a[0] < b[0]
    } else {
        bytes_before(a.skip(1), b.skip(1))
    }
}

/// Whether one line is older than another, by the text of their times.
pub open spec fn older(a: Line, b: Line) -> bool {
    bytes_before(encode_utf8(a.modified), encode_utf8(b.modified))
}

/// Tests whether one text stands before another in the dictionary, by their bytes.
pub fn text_before(a: &str, b: &str) -> (before: bool)
    ensures
        before == bytes_before(encode_utf8(a@), encode_utf8(b@)),
{
    let left = a.as_bytes();
    let right = b.as_bytes();
    let mut i: usize = 0;
    assert(left@.skip(0) =~= left@);
    assert(right@.skip(0) =~= right@);
    while i < left.len() && i < right.len()
        invariant
            i <= left.len(),
            i <= right.len(),
            left@ == encode_utf8(a@),
            right@ == encode_utf8(b@),
            bytes_before(left@.skip(i as int), right@.skip(i as int)) == bytes_before(left@, right@),
        decreases left.len() - i,
    {
        if left[i] != right[i] {
            return left[i] < right[i];
        }
        assert(left@.skip(i as int).skip(1) =~= left@.skip(i + 1));
        assert(right@.skip(i as int).skip(1) =~= right@.skip(i + 1));
        i += 1;
    }
    i < right.len()
}

fn gather(
    entries: &mut Vec<VaultEntry>,
    files: &Vec<DirectoryFile>,
    extension: &str,
    suffix: &str,
)
    ensures
        lines_of(final(entries)@) == lines_of(old(entries)@) + lines_with(
            files@,
            extension@,
            suffix@,
        ),
{
    let ghost earlier = lines_of(entries@);
    let mut i: usize = 0;
    assert(earlier + lines_with(files@.take(0), extension@, suffix@) =~= earlier);
    while i < files.len()
        invariant
            i <= files.len(),
            lines_of(entries@) == earlier + lines_with(
                files@.take(i as int),
                extension@,
                suffix@,
            ),
        decreases files.len() - i,
    {
        let ghost so_far = lines_with(files@.take(i as int), extension@, suffix@);
        assert(files@.take(i + 1).drop_last() =~= files@.take(i as int));
        if same_text(files[i].extension.as_str(), extension) {
            let mut name: String = files[i].stem.clone();
            name.append(suffix);
            let entry = VaultEntry {
                name,
                size: files[i].size,
                modified: show_modified(files[i].modified),
            };
            let ghost before = lines_of(entries@);
            entries.push(entry);
            assert(lines_of(entries@) =~= before.push(entry@));
            assert(earlier + so_far.push(entry@) =~= (earlier + so_far).push(entry@));
        }
        i += 1;
    }
    assert(files@.take(i as int) =~= files@);
}

impl Clone for VaultEntry {
    fn clone(&self) -> (copy: Self)
        ensures
            copy == *self,
    {
        VaultEntry {
            name: self.name.clone(),
            size: self.size,
            modified: self.modified.clone(),
        }
    }
}

impl Ranked for VaultEntry {
    open spec fn rankable(&self) -> bool {
        true
    }

    open spec fn behind(&self, other: &Self) -> bool {
        older(self@, other@)
    }

    proof fn behind_is_order(a: &Self, b: &Self, c: &Self) {
        lemma_bytes_before(
            encode_utf8(a.modified@),
            encode_utf8(b.modified@),
            encode_utf8(c.modified@),
        );
    }

    fn is_behind(&self, other: &Self) -> (answer: bool) {
        text_before(self.modified.as_str(), other.modified.as_str())
    }
}

/// Lists the vault: sealed bundles and plain ones, the newest first. Bundles of the same time stand
/// in the order in which they were gathered.
pub fn list_vault_files(files: &Vec<DirectoryFile>) -> (listing: Vec<VaultEntry>)
    ensures
        exists|entries: Seq<VaultEntry>|
            lines_of(entries) == gathered(files@) && listing@ == #[trigger] ranked(entries),
{
    let mut entries: Vec<VaultEntry> = Vec::new();
    assert(lines_of(entries@) =~= Seq::<Line>::empty());
    gather(&mut entries, files, "vault", "");
    gather(&mut entries, files, "json", " (unencrypted)");
    proof {
        reveal_strlit("");
        assert(""@ =~= Seq::<char>::empty());
        assert(lines_of(entries@) =~= gathered(files@));
    }
    sorted(&entries)
}

/// The dictionary's order is an order.
pub proof fn lemma_bytes_before(a: Seq<u8>, b: Seq<u8>, c: Seq<u8>)
    ensures
        !bytes_before(a, a),
        bytes_before(a, b) ==> !bytes_before(b, a),
        bytes_before(a, b) && bytes_before(b, c) ==> bytes_before(a, c),
        !bytes_before(a, b) && !bytes_before(b, c) ==> !bytes_before(a, c),
    decreases a.len(),
{
    if a.len() > 0 {
        lemma_bytes_before(a.skip(1), a.skip(1), Seq::empty());
    }
    if a.len() > 0 && b.len() > 0 {
        lemma_bytes_before(a.skip(1), b.skip(1), Seq::empty());
    }
    if a.len() > 0 && b.len() > 0 && c.len() > 0 {
        lemma_bytes_before(a.skip(1), b.skip(1), c.skip(1));
    }
}

/// Whether two byte strings agree in their first `k` bytes and the first is at its end there or goes
/// on with a smaller byte.
pub open spec fn parts_below(a: Seq<u8>, b: Seq<u8>, k: int) -> bool {
    &&& 0 <= k <= a.len()
    &&& k < b.len()
    &&& a.take(k) == b.take(k)
    &&& k == a.len() || a[k] < b[k]
}

/// One byte string stands before another exactly where it is the front of a longer one, or where the
/// first byte in which the two differ is the smaller one.
pub proof fn law_dictionary_order(a: Seq<u8>, b: Seq<u8>)
    ensures
        bytes_before(a, b) <==> exists|k: int| #[trigger] parts_below(a, b, k),
    decreases a.len(),
{
    if a.len() > 0 && b.len() > 0 && a[0] == b[0] {
        let (c, d) = (a.skip(1), b.skip(1));
        law_dictionary_order(c, d);
        if bytes_before(c, d) {
            let k = choose|k: int| #[trigger] parts_below(c, d, k);
            assert(a.take(k + 1) =~= seq![a[0]] + c.take(k));
            assert(b.take(k + 1) =~= seq![b[0]] + d.take(k));
            assert(parts_below(a, b, k + 1));
        }
        if exists|k: int| #[trigger] parts_below(a, b, k) {
            let k = choose|k: int| #[trigger] parts_below(a, b, k);
            if k == 0 {
                assert(false);
            }
            assert(c.take(k - 1) =~= a.take(k).skip(1));
            assert(d.take(k - 1) =~= b.take(k).skip(1));
            assert(parts_below(c, d, k - 1));
        }
    } else if b.len() > 0 {
        if bytes_before(a, b) {
            assert(a.take(0) =~= b.take(0));
            assert(parts_below(a, b, 0));
        }
        if exists|k: int| #[trigger] parts_below(a, b, k) {
            let k = choose|k: int| #[trigger] parts_below(a, b, k);
            if k > 0 {
                assert(a.take(k)[0] == a[0]);
                assert(b.take(k)[0] == b[0]);
            }
        }
    }
}

/// The files with one extension as lines, each name with a suffix.
pub open spec fn bundles(
    files: Seq<DirectoryFile>,
    extension: Seq<char>,
    suffix: Seq<char>,
) -> Seq<Line> {
    files.filter(|f: DirectoryFile| f.extension@ == extension).map_values(
        |f: DirectoryFile|
            Line { name: f.stem@ + suffix, size: f.size, modified: modified_text(f.modified) },
    )
}

/// Every file that is a bundle has its line, once and in the order of the files, with its name, its
/// size and its time, and no other file has any.
pub proof fn law_every_bundle_is_listed(files: Seq<DirectoryFile>)
    ensures
        gathered(files) == bundles(files, "vault"@, Seq::empty()) + bundles(
            files,
            "json"@,
            " (unencrypted)"@,
        ),
{
    lemma_lines_with(files, "vault"@, Seq::empty());
    lemma_lines_with(files, "json"@, " (unencrypted)"@);
}

proof fn lemma_lines_with(files: Seq<DirectoryFile>, extension: Seq<char>, suffix: Seq<char>)
    ensures
        lines_with(files, extension, suffix) == bundles(files, extension, suffix),
    decreases files.len(),
{
    reveal(Seq::filter);
    let wanted = |f: DirectoryFile| f.extension@ == extension;
    let line = |f: DirectoryFile|
        Line { name: f.stem@ + suffix, size: f.size, modified: modified_text(f.modified) };
    if files.len() > 0 {
        let less = files.drop_last();
        lemma_lines_with(less, extension, suffix);
        if wanted(files.last()) {
            assert(less.filter(wanted).push(files.last()).map_values(line) =~= less.filter(
                wanted,
            ).map_values(line).push(line(files.last())));
        }
    } else {
        assert(files.filter(wanted).map_values(line) =~= Seq::<Line>::empty());
    }
}

/// The listing has the newest bundles first, and each line as often as it was gathered.
pub proof fn law_newest_bundles_come_first(files: Seq<DirectoryFile>, listing: Seq<VaultEntry>)
    requires
        exists|entries: Seq<VaultEntry>|
            lines_of(entries) == gathered(files) && listing == #[trigger] ranked(entries),
    ensures
        forall|i: int, j: int|
            0 <= i < j < listing.len() ==> !bytes_before(
                encode_utf8((#[trigger] listing[i]).modified@),
                encode_utf8((#[trigger] listing[j]).modified@),
            ),
        listing.len() == gathered(files).len(),
        forall|line: Line|
            #![trigger lines_of(listing).contains(line)]
            lines_of(listing).contains(line) <==> gathered(files).contains(line),
{
    broadcast use vstd::seq_lib::group_to_multiset_ensures;

    let entries = choose|entries: Seq<VaultEntry>|
        lines_of(entries) == gathered(files) && listing == #[trigger] ranked(entries);
    let model = arbitrary::<VaultEntry>();
    law_ranking_sorts(entries, model);
    assert forall|i: int, j: int| 0 <= i < j < listing.len() implies !bytes_before(
        encode_utf8((#[trigger] listing[i]).modified@),
        encode_utf8((#[trigger] listing[j]).modified@),
    ) by {
        assert(!listing[i].behind(&listing[j]));
    }
    assert(listing.to_multiset().len() == listing.len());
    assert(entries.to_multiset().len() == entries.len());
    assert(lines_of(entries).len() == entries.len());
    assert forall|line: Line|
        #![trigger lines_of(listing).contains(line)]
        lines_of(listing).contains(line) <==> gathered(files).contains(line) by {
        if lines_of(listing).contains(line) {
            let i = choose|i: int| 0 <= i < listing.len() && lines_of(listing)[i] == line;
            assert(listing.contains(listing[i]));
            assert(entries.to_multiset().count(listing[i]) > 0);
            assert(entries.contains(listing[i]));
            let j = choose|j: int| 0 <= j < entries.len() && entries[j] == listing[i];
            assert(lines_of(entries)[j] == line);
        }
        if gathered(files).contains(line) {
            let i = choose|i: int| 0 <= i < entries.len() && lines_of(entries)[i] == line;
            assert(entries.contains(entries[i]));
            assert(listing.to_multiset().count(entries[i]) > 0);
            assert(listing.contains(entries[i]));
            let j = choose|j: int| 0 <= j < listing.len() && listing[j] == entries[i];
            assert(lines_of(listing)[j] == line);
        }
    }
}

} // verus!
