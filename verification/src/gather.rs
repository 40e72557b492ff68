//! Survey of a capture folder: the files of one shot (camera JPEG, `.lri`,
//! `.lris`) grouped by file stem, and the shots ordered by their `.lri` path.

use vstd::prelude::*;

use crate::text::text_equals;

verus! {

/// The files that make up one shot.
pub struct Photo {
    pub jpg: Option<String>,
    pub lri: Option<String>,
    pub lris: Option<String>,
}

/// Abstract content of a shot: the paths of its files.
pub struct PhotoView {
    pub jpg: Option<Seq<char>>,
    pub lri: Option<Seq<char>>,
    pub lris: Option<Seq<char>>,
}

/// The text of an optional string.
pub open spec fn opt_text(s: Option<String>) -> Option<Seq<char>> {
    match s {
        Some(t) => Some(t@),
        None => None,
    }
}

impl Photo {
    /// Abstract content of the shot.
    pub open spec fn view(&self) -> PhotoView {
        PhotoView { jpg: opt_text(self.jpg), lri: opt_text(self.lri), lris: opt_text(self.lris) }
    }

    /// A shot known so far only by its camera JPEG.
    pub fn new_jpg(jpg: &str) -> (p: Photo)
        ensures
            p.view() == (PhotoView { jpg: Some(jpg@), lri: None, lris: None }),
    {
        Photo { jpg: Some(String::from_str(jpg)), lri: None, lris: None }
    }

    /// A shot known so far only by its `.lri` file.
    pub fn new_lri(lri: &str) -> (p: Photo)
        ensures
            p.view() == (PhotoView { jpg: None, lri: Some(lri@), lris: None }),
    {
        Photo { lri: Some(String::from_str(lri)), jpg: None, lris: None }
    }

    /// A shot known so far only by its `.lris` file.
    pub fn new_lris(lris: &str) -> (p: Photo)
        ensures
            p.view() == (PhotoView { jpg: None, lri: None, lris: Some(lris@) }),
    {
        Photo { lris: Some(String::from_str(lris)), lri: None, jpg: None }
    }
}

/// A regular file found in the folder: its stem, its extension if any, and
/// its path.
pub struct DirEntry {
    pub stem: String,
    pub extension: Option<String>,
    pub path: String,
}

/// Which slot of a shot a file with extension `ext` fills: 0 for `jpg`, 1 for
/// `lri`, 2 for `lris`, 3 for a file that is not part of a shot.
pub open spec fn file_kind(ext: Option<Seq<char>>) -> int {
    match ext {
        Some(e) => if e == "jpg"@ {
            0
        } else if e == "lri"@ {
            1
        } else if e == "lris"@ {
            2
        } else {
            3
        },
        None => 3,
    }
}

/// `p` with slot `kind` set to `path`.
pub open spec fn with_file(p: PhotoView, kind: int, path: Seq<char>) -> PhotoView {
    if kind == 0 {
        PhotoView { jpg: Some(path), ..p }
    } else if kind == 1 {
        PhotoView { lri: Some(path), ..p }
    } else {
        PhotoView { lris: Some(path), ..p }
    }
}

/// A shot holding only `path` in slot `kind`.
pub open spec fn first_file(kind: int, path: Seq<char>) -> PhotoView {
    with_file(PhotoView { jpg: None, lri: None, lris: None }, kind, path)
}

/// Index of the shot with stem `stem` among `shots`.
pub open spec fn stem_index(shots: Seq<(Seq<char>, PhotoView)>, stem: Seq<char>, n: int) -> Option<int>
    decreases n,
{
    if n <= 0 {
        None
    } else if shots[n - 1].0 == stem {
        Some(n - 1)
    } else {
        stem_index(shots, stem, n - 1)
    }
}

/// Shots after the first `n` entries, in the order their stems first appear:
/// each shot file fills its slot of the shot with its stem (a later file of
/// the same kind replacing an earlier one), starting a new shot for a new
/// stem; other files are ignored.
pub open spec fn shots_after(entries: Seq<DirEntry>, n: int) -> Seq<(Seq<char>, PhotoView)>
    decreases n,
{
    if n <= 0 {
        seq![]
    } else {
        let prev = shots_after(entries, n - 1);
        let e = entries[n - 1];
        let kind = file_kind(opt_text(e.extension));
        if kind == 3 {
            prev
        } else {
            match stem_index(prev, e.stem@, prev.len() as int) {
                Some(j) => prev.update(j, (e.stem@, with_file(prev[j].1, kind, e.path@))),
                None => prev.push((e.stem@, first_file(kind, e.path@))),
            }
        }
    }
}

/// The contents of a list of shots.
pub open spec fn photo_views(s: Seq<Photo>) -> Seq<PhotoView> {
    Seq::new(s.len(), |i: int| s[i].view())
}

/// The shots of a stem-keyed list, without their stems.
pub open spec fn shot_views(g: Seq<(Seq<char>, PhotoView)>) -> Seq<PhotoView> {
    Seq::new(g.len(), |i: int| g[i].1)
}

/// `a` comes no later than `b` in character order, comparing from index `i`.
pub open spec fn text_le_from(a: Seq<char>, b: Seq<char>, i: int) -> bool
    decreases a.len() - i,
{
    if i >= a.len() {
        true
    } else if i >= b.len() {
        false
    } else if a[i] < b[i] {
        true
    } else if a[i] > b[i] {
        false
    } else {
        text_le_from(a, b, i + 1)
    }
}

/// `a` comes no later than `b` in character order.
pub open spec fn text_le(a: Seq<char>, b: Seq<char>) -> bool {
    text_le_from(a, b, 0)
}

/// Shots are ordered by `.lri` path, shots without one first.
pub open spec fn shot_le(a: PhotoView, b: PhotoView) -> bool {
    match (a.lri, b.lri) {
        (None, _) => true,
        (Some(_), None) => false,
        (Some(x), Some(y)) => text_le(x, y),
    }
}

proof fn lemma_text_le_total(a: Seq<char>, b: Seq<char>, i: int)
    requires
        0 <= i,
    ensures
        text_le_from(a, b, i) || text_le_from(b, a, i),
    decreases a.len() - i,
{
    if i < a.len() && i < b.len() && a[i] == b[i] {
        lemma_text_le_total(a, b, i + 1);
    }
}

proof fn lemma_text_le_trans(a: Seq<char>, b: Seq<char>, c: Seq<char>, i: int)
    requires
        0 <= i,
        text_le_from(a, b, i),
        text_le_from(b, c, i),
    ensures
        text_le_from(a, c, i),
    decreases a.len() - i,
{
    if i < a.len() && i < b.len() && i < c.len() && a[i] == b[i] && b[i] == c[i] {
        lemma_text_le_trans(a, b, c, i + 1);
    }
}

proof fn lemma_text_le_refl(a: Seq<char>, i: int)
    requires
        0 <= i,
    ensures
        text_le_from(a, a, i),
    decreases a.len() - i,
{
    if i < a.len() {
        lemma_text_le_refl(a, i + 1);
    }
}

proof fn lemma_shot_le_refl(a: PhotoView)
    ensures
        shot_le(a, a),
{
    if a.lri is Some {
        lemma_text_le_refl(a.lri->0, 0);
    }
}

proof fn lemma_shot_le_total(a: PhotoView, b: PhotoView)
    ensures
        shot_le(a, b) || shot_le(b, a),
{
    if a.lri is Some && b.lri is Some {
        lemma_text_le_total(a.lri->0, b.lri->0, 0);
    }
}

proof fn lemma_shot_le_trans(a: PhotoView, b: PhotoView, c: PhotoView)
    requires
        shot_le(a, b),
        shot_le(b, c),
    ensures
        shot_le(a, c),
{
    if a.lri is Some && b.lri is Some && c.lri is Some {
        lemma_text_le_trans(a.lri->0, b.lri->0, c.lri->0, 0);
    }
}

/// `a` and `b` agree from index `i` up to `j`, and at `j` either `a` has ended
/// or both go on and `a`'s character is the smaller.
pub open spec fn first_difference_favours(a: Seq<char>, b: Seq<char>, i: int, j: int) -> bool {
    &&& i <= j <= a.len()
    &&& j <= b.len()
    &&& forall|k: int| i <= k < j ==> #[trigger] a[k] == b[k]
    &&& (j == a.len() || (j < b.len() && a[j] < b[j]))
}

proof fn lemma_text_le_from_characterized(a: Seq<char>, b: Seq<char>, i: int)
    requires
        0 <= i <= a.len(),
        i <= b.len(),
    ensures
        text_le_from(a, b, i) <==> exists|j: int| #[trigger] first_difference_favours(a, b, i, j),
    decreases a.len() - i,
{
    if i == a.len() {
        assert(first_difference_favours(a, b, i, i));
    } else if i == b.len() {
        if exists|j: int| #[trigger] first_difference_favours(a, b, i, j) {
            let j = choose|j: int| #[trigger] first_difference_favours(a, b, i, j);
            assert(j == i);
        }
    } else if a[i] < b[i] {
        assert(first_difference_favours(a, b, i, i));
    } else if a[i] > b[i] {
        if exists|j: int| #[trigger] first_difference_favours(a, b, i, j) {
            let j = choose|j: int| #[trigger] first_difference_favours(a, b, i, j);
            if j > i {
                assert(a[i] == b[i]);
            }
        }
    } else {
        lemma_text_le_from_characterized(a, b, i + 1);
        if text_le_from(a, b, i + 1) {
            let j = choose|j: int| #[trigger] first_difference_favours(a, b, i + 1, j);
            assert(first_difference_favours(a, b, i, j));
        }
        if exists|j: int| #[trigger] first_difference_favours(a, b, i, j) {
            let j = choose|j: int| #[trigger] first_difference_favours(a, b, i, j);
            if j == i {
                assert(false);
            }
            assert(first_difference_favours(a, b, i + 1, j));
        }
    }
}

/// Character order is dictionary order: `a` comes no later than `b` exactly
/// when the two agree up to some point at which either `a` has ended or `a`'s
/// character is the smaller.
pub proof fn lemma_text_order_is_dictionary_order(a: Seq<char>, b: Seq<char>)
    ensures
        text_le(a, b) <==> exists|j: int| #[trigger] first_difference_favours(a, b, 0, j),
{
    lemma_text_le_from_characterized(a, b, 0);
}

/// Whether `a` comes no later than `b` in character order.
pub fn text_le_exec(a: &str, b: &str) -> (r: bool)
    ensures
        r == text_le(a@, b@),
{
    let na: usize = a.unicode_len();
    let nb: usize = b.unicode_len();
    let mut i: usize = 0;
    while i < na && i < nb
        invariant
            na == a@.len(),
            nb == b@.len(),
            0 <= i <= na,
            text_le_from(a@, b@, 0) == text_le_from(a@, b@, i as int),
        decreases na - i,
    {
        let ca: char = a.get_char(i);
        let cb: char = b.get_char(i);
        if ca < cb {
            return true;
        }
        if ca > cb {
            return false;
        }
        i = i + 1;
    }
    i >= na
}

/// Whether shot `a` comes no later than shot `b`.
fn shot_le_exec(a: &Photo, b: &Photo) -> (r: bool)
    ensures
        r == shot_le(a.view(), b.view()),
{
    match (&a.lri, &b.lri) {
        (None, _) => true,
        (Some(_), None) => false,
        (Some(x), Some(y)) => text_le_exec(x.as_str(), y.as_str()),
    }
}

/// Which slot a file extension fills (see `file_kind`).
fn kind_of(ext: &Option<String>) -> (k: u8)
    ensures
        k == file_kind(opt_text(*ext)),
{
    match ext {
        Some(e) => if text_equals(e.as_str(), "jpg") {
            0
        } else if text_equals(e.as_str(), "lri") {
            1
        } else if text_equals(e.as_str(), "lris") {
            2
        } else {
            3
        },
        None => 3,
    }
}

/// The shots of a folder listing, grouped by stem and ordered by `.lri` path
/// (shots without one first). Shots whose `.lri` paths are equal may come in
/// any order.
pub fn gather_photos(entries: &[DirEntry]) -> (photos: Vec<Photo>)
    ensures
        photos@.len() == shots_after(entries@, entries@.len() as int).len(),
        photo_views(photos@).to_multiset() == shot_views(
            shots_after(entries@, entries@.len() as int),
        ).to_multiset(),
        forall|i: int, j: int|
            0 <= i < j < photos@.len() ==> shot_le(#[trigger] photos@[i].view(), #[trigger] photos@[j].view()),
        forall|j: int|
            0 <= j < photos@.len() && #[trigger] photos@[j].view().lris is Some ==> exists|i: int|
                0 <= i < entries@.len() && Some(#[trigger] entries@[i].path@) == photos@[j].view().lris
                    && opt_text(entries@[i].extension) == Some("lris"@),
        forall|j: int|
            0 <= j < photos@.len() && #[trigger] photos@[j].view().lri is Some ==> exists|i: int|
                0 <= i < entries@.len() && Some(#[trigger] entries@[i].path@) == photos@[j].view().lri
                    && opt_text(entries@[i].extension) == Some("lri"@),
        forall|j: int|
            0 <= j < photos@.len() && #[trigger] photos@[j].view().jpg is Some ==> exists|i: int|
                0 <= i < entries@.len() && Some(#[trigger] entries@[i].path@) == photos@[j].view().jpg
                    && opt_text(entries@[i].extension) == Some("jpg"@),
{
    let mut stems: Vec<String> = Vec::new();
    let mut shots: Vec<Photo> = Vec::new();
    let n: usize = entries.len();
    let mut i: usize = 0;
    while i < n
        invariant
            n == entries@.len(),
            0 <= i <= n,
            stems@.len() == shots@.len(),
            shots_after(entries@, i as int).len() == shots@.len(),
            forall|k: int|
                0 <= k < shots@.len() ==> #[trigger] shots_after(entries@, i as int)[k] == (
                    stems@[k]@,
                    shots@[k].view(),
                ),
        decreases n - i,
    {
        let ghost prev = shots_after(entries@, i as int);
        let e: &DirEntry = &entries[i];
        let kind: u8 = kind_of(&e.extension);
        if kind != 3 {
            let m: usize = stems.len();
            let mut found: Option<usize> = None;
            let mut k: usize = 0;
            while k < m
                invariant
                    m == stems@.len(),
                    m == prev.len(),
                    0 <= k <= m,
                    forall|q: int| 0 <= q < m ==> #[trigger] prev[q].0 == stems@[q]@,
                    found is None ==> stem_index(prev, e.stem@, k as int) is None,
                    found matches Some(j) ==> stem_index(prev, e.stem@, k as int) == Some(j as int),
                decreases m - k,
            {
                if text_equals(stems[k].as_str(), e.stem.as_str()) {
                    found = Some(k);
                }
                k = k + 1;
            }
            match found {
                Some(j) => {
                    proof {
                        lemma_stem_index_found(prev, e.stem@, m as int);
                    }
                    let path: String = e.path.clone();
                    let ghost before = shots@;
                    let mut p: Photo = shots.remove(j);
                    if kind == 0 {
                        p.jpg = Some(path);
                    } else if kind == 1 {
                        p.lri = Some(path);
                    } else {
                        p.lris = Some(path);
                    }
                    shots.insert(j, p);
                    proof {
                        lemma_stem_index_found(prev, e.stem@, m as int);
                        assert forall|q: int|
                            0 <= q < shots@.len() implies #[trigger] shots_after(entries@, i + 1)[q] == (
                            stems@[q]@,
                            shots@[q].view(),
                        ) by {
                            if q != j {
                                assert(shots@[q] == before[q]);
                            }
                        }
                    }
                },
                None => {
                    let stem: String = e.stem.clone();
                    let p: Photo = if kind == 0 {
                        Photo::new_jpg(e.path.as_str())
                    } else if kind == 1 {
                        Photo::new_lri(e.path.as_str())
                    } else {
                        Photo::new_lris(e.path.as_str())
                    };
                    stems.push(stem);
                    shots.push(p);
                },
            }
        }
        i = i + 1;
    }
    let ghost grouped = shots_after(entries@, n as int);
    proof {
        assert(photo_views(shots@) =~= shot_views(grouped));
    }
    let sorted: Vec<Photo> = sort_shots(shots);
    proof {
        lemma_shots_keep_files_by_extension(entries@);
        assert forall|j: int| 0 <= j < sorted@.len() implies exists|m: int|
            0 <= m < grouped.len() && #[trigger] grouped[m].1 == #[trigger] sorted@[j].view() by {
            broadcast use vstd::seq_lib::group_to_multiset_ensures;
            assert(photo_views(sorted@)[j] == sorted@[j].view());
            assert(photo_views(sorted@).contains(sorted@[j].view()));
            assert(shot_views(grouped).to_multiset().count(sorted@[j].view()) > 0);
            assert(shot_views(grouped).contains(sorted@[j].view()));
            let m = choose|m: int| 0 <= m < shot_views(grouped).len() && shot_views(grouped)[m] == sorted@[j].view();
            assert(grouped[m].1 == sorted@[j].view());
        }
    }
    sorted
}

proof fn lemma_stem_index_found(shots: Seq<(Seq<char>, PhotoView)>, stem: Seq<char>, m: int)
    requires
        0 <= m <= shots.len(),
    ensures
        stem_index(shots, stem, m) matches Some(j) ==> 0 <= j < m && shots[j].0 == stem,
        stem_index(shots, stem, m) is None ==> forall|q: int| 0 <= q < m ==> #[trigger] shots[q].0 != stem,
    decreases m,
{
    if m > 0 {
        lemma_stem_index_found(shots, stem, m - 1);
    }
}

/// Slot `kind` of a shot, numbered as `file_kind` numbers extensions.
pub open spec fn slot(p: PhotoView, kind: int) -> Option<Seq<char>> {
    if kind == 0 {
        p.jpg
    } else if kind == 1 {
        p.lri
    } else {
        p.lris
    }
}

/// Every filled slot of a grouped shot holds the path of a listed file of
/// that kind and stem; every listed shot file has a shot with its stem whose
/// slot of its kind is filled; and no two shots share a stem.
proof fn lemma_grouping(entries: Seq<DirEntry>, n: int, k: int)
    requires
        0 <= n <= entries.len(),
        0 <= k < 3,
    ensures
        forall|j: int|
            0 <= j < shots_after(entries, n).len() && #[trigger] slot(shots_after(entries, n)[j].1, k) is Some
                ==> exists|i: int|
                0 <= i < n && Some(#[trigger] entries[i].path@) == slot(shots_after(entries, n)[j].1, k)
                    && file_kind(opt_text(entries[i].extension)) == k && entries[i].stem@ == shots_after(
                    entries,
                    n,
                )[j].0,
        forall|i: int|
            0 <= i < n && file_kind(opt_text(#[trigger] entries[i].extension)) == k ==> exists|j: int|
                0 <= j < shots_after(entries, n).len() && #[trigger] shots_after(entries, n)[j].0
                    == entries[i].stem@ && slot(shots_after(entries, n)[j].1, k) is Some,
        forall|j1: int, j2: int|
            0 <= j1 < j2 < shots_after(entries, n).len() ==> #[trigger] shots_after(entries, n)[j1].0
                != #[trigger] shots_after(entries, n)[j2].0,
    decreases n,
{
    if n > 0 {
        lemma_grouping(entries, n - 1, k);
        let prev = shots_after(entries, n - 1);
        let cur = shots_after(entries, n);
        let e = entries[n - 1];
        let kind = file_kind(opt_text(e.extension));
        if kind != 3 {
            lemma_stem_index_found(prev, e.stem@, prev.len() as int);
            match stem_index(prev, e.stem@, prev.len() as int) {
                Some(j0) => {
                    assert(cur == prev.update(j0, (e.stem@, with_file(prev[j0].1, kind, e.path@))));
                    assert forall|j: int|
                        0 <= j < cur.len() && #[trigger] slot(cur[j].1, k) is Some implies exists|i: int|
                        0 <= i < n && Some(#[trigger] entries[i].path@) == slot(cur[j].1, k) && file_kind(
                            opt_text(entries[i].extension),
                        ) == k && entries[i].stem@ == cur[j].0 by {
                        if j == j0 && k == kind {
                            assert(entries[n - 1].path@ == e.path@);
                        } else {
                            assert(slot(cur[j].1, k) == slot(prev[j].1, k));
                            assert(cur[j].0 == prev[j].0);
                            assert(slot(prev[j].1, k) is Some);
                            let i = choose|i: int|
                                0 <= i < n - 1 && Some(#[trigger] entries[i].path@) == slot(prev[j].1, k)
                                    && file_kind(opt_text(entries[i].extension)) == k && entries[i].stem@
                                    == prev[j].0;
                            assert(entries[i].path@ == entries[i].path@);
                        }
                    }
                    assert forall|i: int|
                        0 <= i < n && file_kind(opt_text(#[trigger] entries[i].extension)) == k implies exists|
                        j: int,
                    |
                        0 <= j < cur.len() && #[trigger] cur[j].0 == entries[i].stem@ && slot(cur[j].1, k)
                            is Some by {
                        if i == n - 1 {
                            assert(cur[j0].0 == entries[i].stem@);
                        } else {
                            let j = choose|j: int|
                                0 <= j < prev.len() && #[trigger] prev[j].0 == entries[i].stem@ && slot(
                                    prev[j].1,
                                    k,
                                ) is Some;
                            assert(cur[j].0 == entries[i].stem@);
                        }
                    }
                },
                None => {
                    assert(cur == prev.push((e.stem@, first_file(kind, e.path@))));
                    assert forall|j: int|
                        0 <= j < cur.len() && #[trigger] slot(cur[j].1, k) is Some implies exists|i: int|
                        0 <= i < n && Some(#[trigger] entries[i].path@) == slot(cur[j].1, k) && file_kind(
                            opt_text(entries[i].extension),
                        ) == k && entries[i].stem@ == cur[j].0 by {
                        if j == prev.len() {
                            assert(entries[n - 1].path@ == e.path@);
                        } else {
                            assert(cur[j] == prev[j]);
                            let i = choose|i: int|
                                0 <= i < n - 1 && Some(#[trigger] entries[i].path@) == slot(prev[j].1, k)
                                    && file_kind(opt_text(entries[i].extension)) == k && entries[i].stem@
                                    == prev[j].0;
                            assert(entries[i].path@ == entries[i].path@);
                        }
                    }
                    assert forall|i: int|
                        0 <= i < n && file_kind(opt_text(#[trigger] entries[i].extension)) == k implies exists|
                        j: int,
                    |
                        0 <= j < cur.len() && #[trigger] cur[j].0 == entries[i].stem@ && slot(cur[j].1, k)
                            is Some by {
                        if i == n - 1 {
                            assert(cur[prev.len() as int].0 == entries[i].stem@);
                        } else {
                            let j = choose|j: int|
                                0 <= j < prev.len() && #[trigger] prev[j].0 == entries[i].stem@ && slot(
                                    prev[j].1,
                                    k,
                                ) is Some;
                            assert(cur[j] == prev[j]);
                        }
                    }
                },
            }
        }
    }
}

proof fn lemma_extension_kinds()
    ensures
        file_kind(Some("jpg"@)) == 0,
        file_kind(Some("lri"@)) == 1,
        file_kind(Some("lris"@)) == 2,
        forall|e: Option<Seq<char>>| file_kind(e) == 0 ==> e == Some("jpg"@),
        forall|e: Option<Seq<char>>| file_kind(e) == 1 ==> e == Some("lri"@),
        forall|e: Option<Seq<char>>| file_kind(e) == 2 ==> e == Some("lris"@),
{
    reveal_strlit("jpg");
    reveal_strlit("lri");
    reveal_strlit("lris");
    assert("lri"@[0] != "jpg"@[0]);
    assert("lris"@[0] != "jpg"@[0]);
    assert("lris"@.len() != "lri"@.len());
}

/// Shots group a folder's files by stem, each file in the slot of its own
/// extension: a shot's `.jpg`, `.lri` and `.lris` slots hold only paths of
/// listed files with that extension and the shot's stem; every listed
/// `.jpg`, `.lri` or `.lris` file has a shot of its stem whose slot for that
/// extension is filled, whatever order the files come in; and no two shots
/// share a stem.
pub proof fn lemma_shots_keep_files_by_extension(entries: Seq<DirEntry>)
    ensures
        forall|j: int|
            0 <= j < shots_after(entries, entries.len() as int).len() && #[trigger] shots_after(
                entries,
                entries.len() as int,
            )[j].1.jpg is Some ==> exists|i: int|
                0 <= i < entries.len() && Some(#[trigger] entries[i].path@) == shots_after(
                    entries,
                    entries.len() as int,
                )[j].1.jpg && opt_text(entries[i].extension) == Some("jpg"@) && entries[i].stem@
                    == shots_after(entries, entries.len() as int)[j].0,
        forall|j: int|
            0 <= j < shots_after(entries, entries.len() as int).len() && #[trigger] shots_after(
                entries,
                entries.len() as int,
            )[j].1.lri is Some ==> exists|i: int|
                0 <= i < entries.len() && Some(#[trigger] entries[i].path@) == shots_after(
                    entries,
                    entries.len() as int,
                )[j].1.lri && opt_text(entries[i].extension) == Some("lri"@) && entries[i].stem@
                    == shots_after(entries, entries.len() as int)[j].0,
        forall|j: int|
            0 <= j < shots_after(entries, entries.len() as int).len() && #[trigger] shots_after(
                entries,
                entries.len() as int,
            )[j].1.lris is Some ==> exists|i: int|
                0 <= i < entries.len() && Some(#[trigger] entries[i].path@) == shots_after(
                    entries,
                    entries.len() as int,
                )[j].1.lris && opt_text(entries[i].extension) == Some("lris"@) && entries[i].stem@
                    == shots_after(entries, entries.len() as int)[j].0,
        forall|i: int|
            0 <= i < entries.len() && opt_text(#[trigger] entries[i].extension) == Some("lris"@) ==> exists|
                j: int,
            |
                0 <= j < shots_after(entries, entries.len() as int).len() && #[trigger] shots_after(
                    entries,
                    entries.len() as int,
                )[j].0 == entries[i].stem@ && shots_after(entries, entries.len() as int)[j].1.lris is Some,
        forall|i: int|
            0 <= i < entries.len() && opt_text(#[trigger] entries[i].extension) == Some("lri"@) ==> exists|
                j: int,
            |
                0 <= j < shots_after(entries, entries.len() as int).len() && #[trigger] shots_after(
                    entries,
                    entries.len() as int,
                )[j].0 == entries[i].stem@ && shots_after(entries, entries.len() as int)[j].1.lri is Some,
        forall|i: int|
            0 <= i < entries.len() && opt_text(#[trigger] entries[i].extension) == Some("jpg"@) ==> exists|
                j: int,
            |
                0 <= j < shots_after(entries, entries.len() as int).len() && #[trigger] shots_after(
                    entries,
                    entries.len() as int,
                )[j].0 == entries[i].stem@ && shots_after(entries, entries.len() as int)[j].1.jpg is Some,
        forall|j1: int, j2: int|
            0 <= j1 < j2 < shots_after(entries, entries.len() as int).len() ==> #[trigger] shots_after(
                entries,
                entries.len() as int,
            )[j1].0 != #[trigger] shots_after(entries, entries.len() as int)[j2].0,
{
    let n = entries.len() as int;
    lemma_extension_kinds();
    lemma_grouping(entries, n, 0);
    lemma_grouping(entries, n, 1);
    lemma_grouping(entries, n, 2);
    let s = shots_after(entries, n);
    assert forall|j: int|
        0 <= j < s.len() && #[trigger] s[j].1.jpg is Some implies exists|i: int|
        0 <= i < n && Some(#[trigger] entries[i].path@) == s[j].1.jpg && opt_text(entries[i].extension)
            == Some("jpg"@) && entries[i].stem@ == s[j].0 by {
        assert(slot(s[j].1, 0) is Some);
        let i = choose|i: int|
            0 <= i < n && Some(#[trigger] entries[i].path@) == slot(s[j].1, 0) && file_kind(
                opt_text(entries[i].extension),
            ) == 0 && entries[i].stem@ == s[j].0;
        assert(entries[i].path@ == entries[i].path@);
    }
    assert forall|j: int|
        0 <= j < s.len() && #[trigger] s[j].1.lri is Some implies exists|i: int|
        0 <= i < n && Some(#[trigger] entries[i].path@) == s[j].1.lri && opt_text(entries[i].extension)
            == Some("lri"@) && entries[i].stem@ == s[j].0 by {
        assert(slot(s[j].1, 1) is Some);
        let i = choose|i: int|
            0 <= i < n && Some(#[trigger] entries[i].path@) == slot(s[j].1, 1) && file_kind(
                opt_text(entries[i].extension),
            ) == 1 && entries[i].stem@ == s[j].0;
        assert(entries[i].path@ == entries[i].path@);
    }
    assert forall|j: int|
        0 <= j < s.len() && #[trigger] s[j].1.lris is Some implies exists|i: int|
        0 <= i < n && Some(#[trigger] entries[i].path@) == s[j].1.lris && opt_text(entries[i].extension)
            == Some("lris"@) && entries[i].stem@ == s[j].0 by {
        assert(slot(s[j].1, 2) is Some);
        let i = choose|i: int|
            0 <= i < n && Some(#[trigger] entries[i].path@) == slot(s[j].1, 2) && file_kind(
                opt_text(entries[i].extension),
            ) == 2 && entries[i].stem@ == s[j].0;
        assert(entries[i].path@ == entries[i].path@);
    }
    assert forall|i: int|
        0 <= i < n && opt_text(#[trigger] entries[i].extension) == Some("lris"@) implies exists|j: int|
        0 <= j < s.len() && #[trigger] s[j].0 == entries[i].stem@ && s[j].1.lris is Some by {
        assert(file_kind(opt_text(entries[i].extension)) == 2);
    }
    assert forall|i: int|
        0 <= i < n && opt_text(#[trigger] entries[i].extension) == Some("lri"@) implies exists|j: int|
        0 <= j < s.len() && #[trigger] s[j].0 == entries[i].stem@ && s[j].1.lri is Some by {
        assert(file_kind(opt_text(entries[i].extension)) == 1);
    }
    assert forall|i: int|
        0 <= i < n && opt_text(#[trigger] entries[i].extension) == Some("jpg"@) implies exists|j: int|
        0 <= j < s.len() && #[trigger] s[j].0 == entries[i].stem@ && s[j].1.jpg is Some by {
        assert(file_kind(opt_text(entries[i].extension)) == 0);
    }
}

/// `shots` in order of `.lri` path, by repeatedly taking out the first of the
/// earliest remaining.
fn sort_shots(shots: Vec<Photo>) -> (sorted: Vec<Photo>)
    ensures
        sorted@.len() == shots@.len(),
        photo_views(sorted@).to_multiset() == photo_views(shots@).to_multiset(),
        forall|i: int, j: int|
            0 <= i < j < sorted@.len() ==> shot_le(#[trigger] sorted@[i].view(), #[trigger] sorted@[j].view()),
{
    let mut rest: Vec<Photo> = shots;
    let mut out: Vec<Photo> = Vec::new();
    proof {
        broadcast use vstd::seq_lib::group_to_multiset_ensures;
        assert(photo_views(out@) =~= Seq::<PhotoView>::empty());
        assert(photo_views(out@).to_multiset() =~= vstd::multiset::Multiset::<PhotoView>::empty());
        assert(photo_views(out@).to_multiset().add(photo_views(rest@).to_multiset()) =~= photo_views(
            shots@,
        ).to_multiset());
    }
    while rest.len() > 0
        invariant
            out@.len() + rest@.len() == shots@.len(),
            photo_views(out@).to_multiset().add(photo_views(rest@).to_multiset()) == photo_views(
                shots@,
            ).to_multiset(),
            forall|i: int, j: int|
                0 <= i < j < out@.len() ==> shot_le(#[trigger] out@[i].view(), #[trigger] out@[j].view()),
            forall|i: int, j: int|
                0 <= i < out@.len() && 0 <= j < rest@.len() ==> shot_le(
                    #[trigger] out@[i].view(),
                    #[trigger] rest@[j].view(),
                ),
        decreases rest@.len(),
    {
        let mut best: usize = 0;
        let mut k: usize = 1;
        proof {
            lemma_shot_le_refl(rest@[0].view());
        }
        while k < rest.len()
            invariant
                0 <= best < rest@.len(),
                1 <= k <= rest@.len(),
                best < k,
                forall|q: int| 0 <= q < k ==> shot_le(rest@[best as int].view(), #[trigger] rest@[q].view()),
            decreases rest@.len() - k,
        {
            if !shot_le_exec(&rest[best], &rest[k]) {
                proof {
                    lemma_shot_le_total(rest@[best as int].view(), rest@[k as int].view());
                    assert forall|q: int| 0 <= q < k + 1 implies shot_le(
                        rest@[k as int].view(),
                        #[trigger] rest@[q].view(),
                    ) by {
                        lemma_shot_le_refl(rest@[k as int].view());
                        if q < k {
                            lemma_shot_le_trans(
                                rest@[k as int].view(),
                                rest@[best as int].view(),
                                rest@[q].view(),
                            );
                        }
                    }
                }
                best = k;
            }
            k = k + 1;
        }
        let ghost rest0 = rest@;
        let ghost out0 = out@;
        let p: Photo = rest.remove(best);
        proof {
            broadcast use vstd::seq_lib::group_to_multiset_ensures;
            assert(rest@ == rest0.remove(best as int));
            assert(photo_views(rest@) =~= photo_views(rest0).remove(best as int));
            assert(photo_views(rest0)[best as int] == p.view());
        }
        out.push(p);
        proof {
            broadcast use vstd::seq_lib::group_to_multiset_ensures;
            assert(photo_views(out@) =~= photo_views(out0).push(p.view()));
            let mo = photo_views(out0).to_multiset();
            let mr = photo_views(rest0).to_multiset();
            assert(photo_views(out@).to_multiset() =~= mo.insert(p.view()));
            assert(photo_views(rest@).to_multiset() =~= mr.remove(p.view()));
            assert(mr.count(p.view()) > 0) by {
                assert(photo_views(rest0).contains(p.view())) by {
                    assert(photo_views(rest0)[best as int] == p.view());
                }
            }
            assert(mo.insert(p.view()).add(mr.remove(p.view())) =~= mo.add(mr));
            assert forall|i: int, j: int|
                0 <= i < out@.len() && 0 <= j < rest@.len() implies shot_le(
                #[trigger] out@[i].view(),
                #[trigger] rest@[j].view(),
            ) by {
                if j < best {
                    assert(rest@[j] == rest0[j]);
                } else {
                    assert(rest@[j] == rest0[j + 1]);
                }
            }
        }
    }
    out
}

} // verus!
