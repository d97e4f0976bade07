//! Changed files of a branch, read from the output of `git diff
//! --name-status -z` and from zero-context patches.
use vstd::prelude::*;
use crate::scope::{decode_utf8, decode_utf8_lossy};

verus! {

/// How a file changed.
#[derive(Debug, Clone, Copy, PartialEq, Eq, Structural)]
pub enum ChangeStatus {
    Added,
    Deleted,
    Renamed,
    Modified,
    Untracked,
}

/// A changed line range: `[old_start, old_end)` became `[new_start, new_end)`.
#[derive(Debug, Clone, Copy, PartialEq, Eq, Structural)]
pub struct ChangedRange {
    pub old_start: usize,
    pub old_end: usize,
    pub new_start: usize,
    pub new_end: usize,
}

/// A changed file with its paths before and after the change.
#[derive(Debug, Clone)]
pub struct ChangedFile {
    pub status: ChangeStatus,
    pub old_path: Option<String>,
    pub new_path: Option<String>,
    pub hunks: Vec<ChangedRange>,
}

pub open spec fn path_view(p: Option<String>) -> Option<Seq<char>> {
    match p {
        Some(s) => Some(s@),
        None => None,
    }
}

/// A changed file as a value: status, old path, new path, hunks.
pub open spec fn file_view(f: ChangedFile) -> (
    ChangeStatus,
    Option<Seq<char>>,
    Option<Seq<char>>,
    Seq<ChangedRange>,
) {
    (f.status, path_view(f.old_path), path_view(f.new_path), f.hunks@)
}

pub open spec fn files_view(fs: Seq<ChangedFile>) -> Seq<
    (ChangeStatus, Option<Seq<char>>, Option<Seq<char>>, Seq<ChangedRange>),
> {
    fs.map_values(|f: ChangedFile| file_view(f))
}

// ---------------------------------------------------------------------------
// NUL-separated fields

/// The finished fields and the field in progress after reading `b`.
pub open spec fn nul_state(b: Seq<u8>) -> (Seq<Seq<u8>>, Seq<u8>)
    decreases b.len(),
{
    if b.len() == 0 {
        (Seq::empty(), Seq::empty())
    } else {
        let (done, cur) = nul_state(b.drop_last());
        if b.last() == 0 {
            if cur.len() > 0 {
                (done.push(cur), Seq::empty())
            } else {
                (done, Seq::empty())
            }
        } else {
            (done, cur.push(b.last()))
        }
    }
}

/// The non-empty fields of `b` between NUL bytes, in order.
pub open spec fn nul_fields(b: Seq<u8>) -> Seq<Seq<u8>> {
    let (done, cur) = nul_state(b);
    if cur.len() > 0 {
        done.push(cur)
    } else {
        done
    }
}

pub open spec fn byte_views(v: Seq<Vec<u8>>) -> Seq<Seq<u8>> {
    v.map_values(|f: Vec<u8>| f@)
}

/// The non-empty NUL-separated fields of `b`.
pub fn split_nul_fields(b: &Vec<u8>) -> (r: Vec<Vec<u8>>)
    ensures
        byte_views(r@) == nul_fields(b@),
{
    let mut done: Vec<Vec<u8>> = Vec::new();
    let mut cur: Vec<u8> = Vec::new();
    let mut i: usize = 0;
    assert(b@.take(0) =~= Seq::<u8>::empty());
    assert(byte_views(done@) =~= Seq::<Seq<u8>>::empty());
    while i < b.len()
        invariant
            i <= b.len(),
            byte_views(done@) == nul_state(b@.take(i as int)).0,
            cur@ == nul_state(b@.take(i as int)).1,
        decreases b.len() - i,
    {
        let c = b[i];
        proof {
            assert(b@.take(i + 1).drop_last() =~= b@.take(i as int));
            assert(b@.take(i + 1).last() == c);
        }
        if c == 0 {
            if cur.len() > 0 {
                let ghost before = done@;
                let finished = cur;
                cur = Vec::new();
                done.push(finished);
                proof {
                    assert(byte_views(done@) =~= byte_views(before).push(finished@));
                }
            }
        } else {
            cur.push(c);
        }
        i = i + 1;
    }
    assert(b@.take(b.len() as int) =~= b@);
    if cur.len() > 0 {
        let ghost before = done@;
        done.push(cur);
        proof {
            assert(byte_views(done@) =~= byte_views(before).push(cur@));
        }
    }
    done
}

// ---------------------------------------------------------------------------
// Name-status entries

/// The status letter of a name-status field (`M` when it has none).
pub open spec fn status_letter(field: Seq<u8>) -> char {
    let t = crate::scope::utf8_lossy(field);
    if t.len() > 0 {
        t[0]
    } else {
        'M'
    }
}

pub open spec fn letter_status(k: char) -> ChangeStatus {
    if k == 'A' {
        ChangeStatus::Added
    } else if k == 'D' {
        ChangeStatus::Deleted
    } else if k == 'R' {
        ChangeStatus::Renamed
    } else {
        ChangeStatus::Modified
    }
}

/// How many fields the entry that starts `fields` takes: its status, one
/// path, and a second path for a rename or copy.
pub open spec fn entry_width(fields: Seq<Seq<u8>>) -> int {
    let k = status_letter(fields[0]);
    1 + (if fields.len() > 1 {
        1int
    } else {
        0
    }) + (if (k == 'R' || k == 'C') && fields.len() > 2 {
        1int
    } else {
        0
    })
}

/// The entry that starts `fields`: (status, old path, new path).  An added
/// file has no old path, a deleted one no new path; a rename or copy has
/// both; any other change has the one path as both.
pub open spec fn first_entry(fields: Seq<Seq<u8>>) -> (ChangeStatus, Option<Seq<char>>, Option<Seq<char>>) {
    let k = status_letter(fields[0]);
    let first = if fields.len() > 1 {
        Some(crate::scope::utf8_lossy(fields[1]))
    } else {
        None
    };
    let second = if (k == 'R' || k == 'C') && fields.len() > 2 {
        Some(crate::scope::utf8_lossy(fields[2]))
    } else {
        None
    };
    if k == 'A' {
        (letter_status(k), None, first)
    } else if k == 'D' {
        (letter_status(k), first, None)
    } else if k == 'R' || k == 'C' {
        (letter_status(k), first, second)
    } else {
        (letter_status(k), first, first)
    }
}

/// The entries of name-status fields, in order.
pub open spec fn status_entries(fields: Seq<Seq<u8>>) -> Seq<
    (ChangeStatus, Option<Seq<char>>, Option<Seq<char>>),
>
    decreases fields.len(),
{
    if fields.len() == 0 {
        Seq::empty()
    } else {
        seq![first_entry(fields)] + status_entries(fields.skip(entry_width(fields)))
    }
}

/// The first file recorded with the paths of `e`.
pub open spec fn first_with_paths(
    files: Seq<(ChangeStatus, Option<Seq<char>>, Option<Seq<char>>, Seq<ChangedRange>)>,
    old: Option<Seq<char>>,
    new: Option<Seq<char>>,
    k: int,
) -> bool {
    &&& 0 <= k < files.len()
    &&& files[k].1 == old && files[k].2 == new
    &&& forall|j: int| 0 <= j < k ==> !(files[j].1 == old && files[j].2 == new)
}

/// Records an entry: the first file with the same old and new paths takes
/// its status; otherwise the entry is a new file without hunks.
pub open spec fn record_entry(
    files: Seq<(ChangeStatus, Option<Seq<char>>, Option<Seq<char>>, Seq<ChangedRange>)>,
    e: (ChangeStatus, Option<Seq<char>>, Option<Seq<char>>),
) -> Seq<(ChangeStatus, Option<Seq<char>>, Option<Seq<char>>, Seq<ChangedRange>)> {
    if exists|k: int| first_with_paths(files, e.1, e.2, k) {
        let k = choose|k: int| first_with_paths(files, e.1, e.2, k);
        files.update(k, (e.0, files[k].1, files[k].2, files[k].3))
    } else {
        files.push((e.0, e.1, e.2, Seq::empty()))
    }
}

/// Records the entries in order.
pub open spec fn record_entries(
    files: Seq<(ChangeStatus, Option<Seq<char>>, Option<Seq<char>>, Seq<ChangedRange>)>,
    es: Seq<(ChangeStatus, Option<Seq<char>>, Option<Seq<char>>)>,
) -> Seq<(ChangeStatus, Option<Seq<char>>, Option<Seq<char>>, Seq<ChangedRange>)>
    decreases es.len(),
{
    if es.len() == 0 {
        files
    } else {
        record_entries(record_entry(files, es[0]), es.drop_first())
    }
}

fn same_path(a: &Option<String>, b: &Option<String>) -> (r: bool)
    ensures
        r == (path_view(*a) == path_view(*b)),
{
    match (a, b) {
        (Some(x), Some(y)) => crate::text::str_eq(x.as_str(), y.as_str()),
        (None, None) => true,
        _ => false,
    }
}

fn copy_path(p: &Option<String>) -> (r: Option<String>)
    ensures
        path_view(r) == path_view(*p),
{
    match p {
        Some(s) => Some(crate::text::owned(s.as_str())),
        None => None,
    }
}

/// Records one entry in `files`.
fn record_exec(
    files: &mut Vec<ChangedFile>,
    status: ChangeStatus,
    old_path: Option<String>,
    new_path: Option<String>,
)
    ensures
        files_view(final(files)@) == record_entry(
            files_view(old(files)@),
            (status, path_view(old_path), path_view(new_path)),
        ),
{
    let ghost fv = files_view(files@);
    let ghost old_v = path_view(old_path);
    let ghost new_v = path_view(new_path);
    let mut k: usize = 0;
    while k < files.len()
        invariant
            k <= files.len(),
            fv == files_view(files@),
            fv == files_view(old(files)@),
            fv.len() == files@.len(),
            old_v == path_view(old_path),
            new_v == path_view(new_path),
            forall|j: int| 0 <= j < k ==> !(fv[j].1 == old_v && fv[j].2 == new_v),
        decreases files.len() - k,
    {
        proof {
            assert(fv[k as int] == file_view(files@[k as int]));
        }
        if same_path(&files[k].new_path, &new_path) && same_path(&files[k].old_path, &old_path) {
            proof {
                assert(first_with_paths(fv, old_v, new_v, k as int));
                let c = choose|c: int| first_with_paths(fv, old_v, new_v, c);
                assert(c == k);
            }
            let ghost before = files@;
            let mut entry = files.remove(k);
            entry.status = status;
            proof {
                assert(file_view(entry) == (status, fv[k as int].1, fv[k as int].2, fv[k as int].3));
            }
            files.insert(k, entry);
            proof {
                assert(files@ =~= before.update(k as int, entry));
                let e = (status, path_view(old_path), path_view(new_path));
                assert(old_v == e.1 && new_v == e.2);
                assert(first_with_paths(fv, e.1, e.2, k as int));
                assert(exists|c: int| first_with_paths(fv, e.1, e.2, c));
                let c = choose|c: int| first_with_paths(fv, e.1, e.2, c);
                assert(c == k);
                assert(files_view(files@) =~= fv.update(
                    k as int,
                    (status, fv[k as int].1, fv[k as int].2, fv[k as int].3),
                ));
            }
            return;
        }
        k = k + 1;
    }
    proof {
        assert(!exists|c: int| first_with_paths(fv, old_v, new_v, c));
    }
    let ghost before = files@;
    let f = ChangedFile { status, old_path, new_path, hunks: Vec::new() };
    files.push(f);
    proof {
        assert(files_view(files@) =~= fv.push((status, old_v, new_v, Seq::empty())));
    }
}

/// Records the entries of `git diff --name-status -z` output in `files`:
/// each entry updates the status of the file with the same paths, or adds
/// the file.
pub fn collect_branch_status(output: &Vec<u8>, files: &mut Vec<ChangedFile>)
    ensures
        files_view(final(files)@) == record_entries(
            files_view(old(files)@),
            status_entries(nul_fields(output@)),
        ),
{
    let fields = split_nul_fields(output);
    let ghost fs = byte_views(fields@);
    let ghost start = files_view(files@);
    let mut i: usize = 0;
    proof {
        assert(fs.skip(0) =~= fs);
    }
    while i < fields.len()
        invariant
            i <= fields.len(),
            fs == byte_views(fields@),
            fs.len() == fields@.len(),
            fs == nul_fields(output@),
            record_entries(files_view(files@), status_entries(fs.skip(i as int)))
                == record_entries(start, status_entries(fs)),
        decreases fields.len() - i,
    {
        let ghost rest = fs.skip(i as int);
        let status_text = decode_utf8_lossy(fields[i].as_slice());
        let st = crate::text::chars_of(status_text.as_str());
        let kind = if st.len() > 0 {
            st[0]
        } else {
            'M'
        };
        proof {
            assert(rest[0] == fields@[i as int]@);
            assert(kind == status_letter(rest[0]));
        }
        let first = if fields.len() - i > 1 {
            proof {
                assert(rest[1] == fields@[i + 1]@);
            }
            Some(decode_utf8_lossy(fields[i + 1].as_slice()))
        } else {
            None
        };
        let takes_two = kind == 'R' || kind == 'C';
        let second = if takes_two && fields.len() - i > 2 {
            proof {
                assert(rest[2] == fields@[i + 2]@);
            }
            Some(decode_utf8_lossy(fields[i + 2].as_slice()))
        } else {
            None
        };
        let width: usize = 1 + (if fields.len() - i > 1 {
            1usize
        } else {
            0
        }) + (if takes_two && fields.len() - i > 2 {
            1usize
        } else {
            0
        });
        let status = if kind == 'A' {
            ChangeStatus::Added
        } else if kind == 'D' {
            ChangeStatus::Deleted
        } else if kind == 'R' {
            ChangeStatus::Renamed
        } else {
            ChangeStatus::Modified
        };
        let (old_path, new_path) = if kind == 'A' {
            (None, first)
        } else if kind == 'D' {
            (first, None)
        } else if takes_two {
            (first, second)
        } else {
            let copy = copy_path(&first);
            (first, copy)
        };
        proof {
            assert(width == entry_width(rest));
            assert((status, path_view(old_path), path_view(new_path)) == first_entry(rest));
            assert(status_entries(rest) == seq![first_entry(rest)] + status_entries(
                rest.skip(width as int),
            ));
            assert(rest.skip(width as int) =~= fs.skip(i + width));
            let es = status_entries(rest);
            assert(es[0] == first_entry(rest));
            assert(es.drop_first() =~= status_entries(fs.skip(i + width)));
        }
        record_exec(files, status, old_path, new_path);
        i = i + width;
    }
    proof {
        assert(fs.skip(i as int).len() == 0);
        assert(status_entries(fs.skip(i as int)) =~= Seq::empty());
    }
}

// ---------------------------------------------------------------------------
// Lines, fields and numbers

/// `l` without one trailing carriage return.
pub open spec fn strip_cr(l: Seq<char>) -> Seq<char> {
    if l.len() > 0 && l.last() == '\r' {
        l.drop_last()
    } else {
        l
    }
}

/// The finished lines and the line in progress after reading `s`.
pub open spec fn line_state(s: Seq<char>) -> (Seq<Seq<char>>, Seq<char>)
    decreases s.len(),
{
    if s.len() == 0 {
        (Seq::empty(), Seq::empty())
    } else {
        let (done, cur) = line_state(s.drop_last());
        if s.last() == '\n' {
            (done.push(strip_cr(cur)), Seq::empty())
        } else {
            (done, cur.push(s.last()))
        }
    }
}

/// The lines of `s` as `str::lines` yields them: split at `\n`, a `\r`
/// before the `\n` dropped, no empty line after a final `\n`.
pub open spec fn text_lines(s: Seq<char>) -> Seq<Seq<char>> {
    let (done, cur) = line_state(s);
    if cur.len() > 0 {
        done.push(cur)
    } else {
        done
    }
}

pub open spec fn char_views(v: Seq<Vec<char>>) -> Seq<Seq<char>> {
    v.map_values(|l: Vec<char>| l@)
}

fn split_lines(s: &Vec<char>) -> (r: Vec<Vec<char>>)
    ensures
        char_views(r@) == text_lines(s@),
{
    let mut done: Vec<Vec<char>> = Vec::new();
    let mut cur: Vec<char> = Vec::new();
    let mut i: usize = 0;
    assert(s@.take(0) =~= Seq::<char>::empty());
    assert(char_views(done@) =~= Seq::<Seq<char>>::empty());
    while i < s.len()
        invariant
            i <= s.len(),
            char_views(done@) == line_state(s@.take(i as int)).0,
            cur@ == line_state(s@.take(i as int)).1,
        decreases s.len() - i,
    {
        let c = s[i];
        proof {
            assert(s@.take(i + 1).drop_last() =~= s@.take(i as int));
            assert(s@.take(i + 1).last() == c);
        }
        if c == '\n' {
            let ghost before = done@;
            let mut finished = cur;
            cur = Vec::new();
            if finished.len() > 0 && finished[finished.len() - 1] == '\r' {
                finished.pop();
            }
            done.push(finished);
            proof {
                assert(char_views(done@) =~= char_views(before).push(finished@));
            }
        } else {
            cur.push(c);
        }
        i = i + 1;
    }
    assert(s@.take(s.len() as int) =~= s@);
    if cur.len() > 0 {
        let ghost before = done@;
        done.push(cur);
        proof {
            assert(char_views(done@) =~= char_views(before).push(cur@));
        }
    }
    done
}

/// The finished fields and the field in progress after reading `s`.
pub open spec fn ws_state(s: Seq<char>) -> (Seq<Seq<char>>, Seq<char>)
    decreases s.len(),
{
    if s.len() == 0 {
        (Seq::empty(), Seq::empty())
    } else {
        let (done, cur) = ws_state(s.drop_last());
        if crate::text::is_unicode_whitespace(s.last()) {
            if cur.len() > 0 {
                (done.push(cur), Seq::empty())
            } else {
                (done, Seq::empty())
            }
        } else {
            (done, cur.push(s.last()))
        }
    }
}

/// The white-space separated fields of `s`, as `str::split_whitespace`
/// yields them.
pub open spec fn ws_fields(s: Seq<char>) -> Seq<Seq<char>> {
    let (done, cur) = ws_state(s);
    if cur.len() > 0 {
        done.push(cur)
    } else {
        done
    }
}

fn split_ws(s: &Vec<char>) -> (r: Vec<Vec<char>>)
    ensures
        char_views(r@) == ws_fields(s@),
{
    let mut done: Vec<Vec<char>> = Vec::new();
    let mut cur: Vec<char> = Vec::new();
    let mut i: usize = 0;
    assert(s@.take(0) =~= Seq::<char>::empty());
    assert(char_views(done@) =~= Seq::<Seq<char>>::empty());
    while i < s.len()
        invariant
            i <= s.len(),
            char_views(done@) == ws_state(s@.take(i as int)).0,
            cur@ == ws_state(s@.take(i as int)).1,
        decreases s.len() - i,
    {
        let c = s[i];
        proof {
            assert(s@.take(i + 1).drop_last() =~= s@.take(i as int));
            assert(s@.take(i + 1).last() == c);
        }
        if crate::text::is_whitespace_exec(c) {
            if cur.len() > 0 {
                let ghost before = done@;
                let finished = cur;
                cur = Vec::new();
                done.push(finished);
                proof {
                    assert(char_views(done@) =~= char_views(before).push(finished@));
                }
            }
        } else {
            cur.push(c);
        }
        i = i + 1;
    }
    assert(s@.take(s.len() as int) =~= s@);
    if cur.len() > 0 {
        let ghost before = done@;
        done.push(cur);
        proof {
            assert(char_views(done@) =~= char_views(before).push(cur@));
        }
    }
    done
}

pub open spec fn all_digits(s: Seq<char>) -> bool {
    forall|i: int| 0 <= i < s.len() ==> '0' <= #[trigger] s[i] && s[i] <= '9'
}

/// The value of a run of decimal digits.
pub open spec fn digits_value(s: Seq<char>) -> nat
    decreases s.len(),
{
    if s.len() == 0 {
        0
    } else {
        digits_value(s.drop_last()) * 10 + ((s.last() as nat) - ('0' as nat)) as nat
    }
}

/// What `usize::from_str` accepts: an optional `+` and at least one digit,
/// with a value that fits.
pub open spec fn parse_usize(s: Seq<char>) -> Option<nat> {
    let d = if s.len() > 0 && s[0] == '+' {
        s.drop_first()
    } else {
        s
    };
    if d.len() > 0 && all_digits(d) && digits_value(d) <= usize::MAX {
        Some(digits_value(d))
    } else {
        None
    }
}

fn digits_exec(d: &Vec<char>) -> (r: Option<usize>)
    ensures
        match r {
            Some(v) => all_digits(d@) && digits_value(d@) == v as nat,
            None => !(all_digits(d@) && digits_value(d@) <= usize::MAX),
        },
{
    let mut value: usize = 0;
    let mut i: usize = 0;
    assert(d@.take(0) =~= Seq::<char>::empty());
    while i < d.len()
        invariant
            i <= d.len(),
            all_digits(d@.take(i as int)),
            value as nat == digits_value(d@.take(i as int)),
        decreases d.len() - i,
    {
        let c = d[i];
        proof {
            assert(d@.take(i + 1).drop_last() =~= d@.take(i as int));
            assert(d@.take(i + 1).last() == c);
        }
        if c < '0' || c > '9' {
            proof {
                assert(d@[i as int] == c);
            }
            return None;
        }
        let digit: usize = (c as u32 - '0' as u32) as usize;
        proof {
            assert forall|k: int| 0 <= k < d@.take(i + 1).len() implies '0' <= #[trigger] d@.take(
                i + 1,
            )[k] && d@.take(i + 1)[k] <= '9' by {
                if k < i {
                    assert(d@.take(i + 1)[k] == d@.take(i as int)[k]);
                }
            }
            assert(digits_value(d@.take(i + 1)) == value * 10 + digit);
        }
        let next = match value.checked_mul(10) {
            None => None,
            Some(t) => t.checked_add(digit),
        };
        match next {
            None => {
                proof {
                    lemma_digits_prefix_bound(d@, i + 1);
                }
                return None;
            },
            Some(v) => {
                value = v;
            },
        }
        i = i + 1;
    }
    assert(d@.take(d.len() as int) =~= d@);
    Some(value)
}

fn parse_usize_exec(s: &Vec<char>) -> (r: Option<usize>)
    ensures
        match r {
            Some(v) => parse_usize(s@) == Some(v as nat),
            None => parse_usize(s@) is None,
        },
{
    let start: usize = if s.len() > 0 && s[0] == '+' {
        1
    } else {
        0
    };
    let d = crate::text::slice_of(s, start, s.len());
    proof {
        if s@.len() > 0 && s@[0] == '+' {
            assert(d@ =~= s@.drop_first());
        } else {
            assert(d@ =~= s@);
        }
    }
    if d.len() == 0 {
        return None;
    }
    digits_exec(&d)
}

/// A prefix of digits is worth no more than the whole run.
proof fn lemma_digits_prefix_bound(d: Seq<char>, n: int)
    requires
        0 <= n <= d.len(),
        all_digits(d.take(n)),
    ensures
        all_digits(d) ==> digits_value(d.take(n)) <= digits_value(d),
    decreases d.len() - n,
{
    if n < d.len() && all_digits(d) {
        assert(all_digits(d.take(n + 1)));
        lemma_digits_prefix_bound(d, n + 1);
        assert(d.take(n + 1).drop_last() =~= d.take(n));
    } else if n == d.len() {
        assert(d.take(n) =~= d);
    }
}

// ---------------------------------------------------------------------------
// Patches

/// A hunk range `-start,count` (or `+start,count`; `count` defaults to 1):
/// its first character is skipped, which must be a one-byte character.
pub open spec fn parse_range(value: Seq<char>) -> Option<(nat, nat)> {
    if value.len() == 0 || value[0] >= '\u{80}' {
        None
    } else {
        let v = value.drop_first();
        let (start, count) = if crate::text::contains_seq(v, ","@) {
            let i = choose|i: int| crate::text::first_occurrence(v, ","@, i);
            (v.subrange(0, i), v.subrange(i + 1, v.len() as int))
        } else {
            (v, "1"@)
        };
        match (parse_usize(start), parse_usize(count)) {
            (Some(a), Some(b)) => Some((a, b)),
            _ => None,
        }
    }
}

fn parse_range_exec(value: &Vec<char>) -> (r: Option<(usize, usize)>)
    ensures
        match r {
            Some((a, b)) => parse_range(value@) == Some((a as nat, b as nat)),
            None => parse_range(value@) is None,
        },
{
    if value.len() == 0 || value[0] >= '\u{80}' {
        return None;
    }
    let v = crate::text::suffix_from(value, 1);
    assert(v@ =~= value@.drop_first());
    let comma = crate::text::chars_of(",");
    proof {
        reveal_strlit(",");
        reveal_strlit("1");
    }
    let (start, count) = match crate::text::find_first(&v, &comma) {
        Some(i) => {
            proof {
                assert(crate::text::contains_seq(v@, ","@));
                let c = choose|c: int| crate::text::first_occurrence(v@, ","@, c);
                assert(c == i);
            }
            (crate::text::slice_of(&v, 0, i), crate::text::suffix_from(&v, i + 1))
        },
        None => (v, crate::text::chars_of("1")),
    };
    match (parse_usize_exec(&start), parse_usize_exec(&count)) {
        (Some(a), Some(b)) => Some((a, b)),
        _ => None,
    }
}

pub open spec fn sat_add(a: nat, b: nat) -> nat {
    if a + b > usize::MAX {
        usize::MAX as nat
    } else {
        a + b
    }
}

/// A file the current patch section is about: by its new path, or by its
/// old path.
pub open spec fn file_matches(
    f: (ChangeStatus, Option<Seq<char>>, Option<Seq<char>>, Seq<ChangedRange>),
    old: Option<Seq<char>>,
    new: Option<Seq<char>>,
) -> bool {
    (new is Some && f.2 is Some && f.2 == new) || (old is Some && f.1 is Some && f.1 == old)
}

pub open spec fn first_match(
    files: Seq<(ChangeStatus, Option<Seq<char>>, Option<Seq<char>>, Seq<ChangedRange>)>,
    old: Option<Seq<char>>,
    new: Option<Seq<char>>,
    k: int,
) -> bool {
    0 <= k < files.len() && file_matches(files[k], old, new) && forall|j: int|
        0 <= j < k ==> !file_matches(files[j], old, new)
}

/// Adds a hunk to the first file of the current section, if there is one.
pub open spec fn add_hunk(
    files: Seq<(ChangeStatus, Option<Seq<char>>, Option<Seq<char>>, Seq<ChangedRange>)>,
    old: Option<Seq<char>>,
    new: Option<Seq<char>>,
    h: ChangedRange,
) -> Seq<(ChangeStatus, Option<Seq<char>>, Option<Seq<char>>, Seq<ChangedRange>)> {
    if exists|k: int| first_match(files, old, new, k) {
        let k = choose|k: int| first_match(files, old, new, k);
        files.update(k, (files[k].0, files[k].1, files[k].2, files[k].3.push(h)))
    } else {
        files
    }
}

/// Reads one line of a patch: `--- a/` starts a section with an old path,
/// `+++ b/` names its new path, `+++ /dev/null` says it has none, and a
/// hunk header `@@ -a,b +c,d` adds the range to the section's file.
pub open spec fn patch_line(
    state: (
        Option<Seq<char>>,
        Option<Seq<char>>,
        Seq<(ChangeStatus, Option<Seq<char>>, Option<Seq<char>>, Seq<ChangedRange>)>,
    ),
    line: Seq<char>,
) -> (
    Option<Seq<char>>,
    Option<Seq<char>>,
    Seq<(ChangeStatus, Option<Seq<char>>, Option<Seq<char>>, Seq<ChangedRange>)>,
) {
    let (old, new, files) = state;
    if crate::text::starts_with(line, "--- a/"@) {
        (Some(line.skip(6)), None, files)
    } else if crate::text::starts_with(line, "+++ b/"@) {
        (old, Some(line.skip(6)), files)
    } else if line == "+++ /dev/null"@ {
        (old, None, files)
    } else if crate::text::starts_with(line, "@@ "@) {
        let parts = ws_fields(line.skip(3));
        if parts.len() < 2 {
            state
        } else {
            match (parse_range(parts[0]), parse_range(parts[1])) {
                (Some((os, oc)), Some((ns, nc))) => (
                    old,
                    new,
                    add_hunk(
                        files,
                        old,
                        new,
                        ChangedRange {
                            old_start: os as usize,
                            old_end: sat_add(os, oc) as usize,
                            new_start: ns as usize,
                            new_end: sat_add(ns, nc) as usize,
                        },
                    ),
                ),
                _ => state,
            }
        }
    } else {
        state
    }
}

/// Reads the lines of a patch in order.
pub open spec fn patch_lines(
    state: (
        Option<Seq<char>>,
        Option<Seq<char>>,
        Seq<(ChangeStatus, Option<Seq<char>>, Option<Seq<char>>, Seq<ChangedRange>)>,
    ),
    lines: Seq<Seq<char>>,
) -> (
    Option<Seq<char>>,
    Option<Seq<char>>,
    Seq<(ChangeStatus, Option<Seq<char>>, Option<Seq<char>>, Seq<ChangedRange>)>,
)
    decreases lines.len(),
{
    if lines.len() == 0 {
        state
    } else {
        patch_line(patch_lines(state, lines.drop_last()), lines.last())
    }
}

fn matches_exec(f: &ChangedFile, old: &Option<Vec<char>>, new: &Option<Vec<char>>) -> (r: bool)
    ensures
        r == file_matches(file_view(*f), opt_chars(*old), opt_chars(*new)),
{
    let by_new = match (new, &f.new_path) {
        (Some(p), Some(v)) => crate::text::seq_eq(&crate::text::chars_of(v.as_str()), p),
        _ => false,
    };
    let by_old = match (old, &f.old_path) {
        (Some(p), Some(v)) => crate::text::seq_eq(&crate::text::chars_of(v.as_str()), p),
        _ => false,
    };
    by_new || by_old
}

pub open spec fn opt_chars(p: Option<Vec<char>>) -> Option<Seq<char>> {
    match p {
        Some(v) => Some(v@),
        None => None,
    }
}

fn add_hunk_exec(
    files: &mut Vec<ChangedFile>,
    sec_old: &Option<Vec<char>>,
    sec_new: &Option<Vec<char>>,
    h: ChangedRange,
)
    ensures
        files_view(final(files)@) == add_hunk(files_view(old(files)@), opt_chars(*sec_old), opt_chars(*sec_new), h),
{
    let ghost fv = files_view(files@);
    let mut k: usize = 0;
    while k < files.len()
        invariant
            k <= files.len(),
            fv == files_view(files@),
            fv == files_view(old(files)@),
            fv.len() == files@.len(),
            forall|j: int| 0 <= j < k ==> !file_matches(fv[j], opt_chars(*sec_old), opt_chars(*sec_new)),
        decreases files.len() - k,
    {
        proof {
            assert(fv[k as int] == file_view(files@[k as int]));
        }
        if matches_exec(&files[k], sec_old, sec_new) {
            proof {
                assert(first_match(fv, opt_chars(*sec_old), opt_chars(*sec_new), k as int));
                let c = choose|c: int| first_match(fv, opt_chars(*sec_old), opt_chars(*sec_new), c);
                assert(c == k);
            }
            let ghost before = files@;
            let mut entry = files.remove(k);
            entry.hunks.push(h);
            proof {
                assert(file_view(entry) == (fv[k as int].0, fv[k as int].1, fv[k as int].2, fv[k as int].3.push(h)));
            }
            files.insert(k, entry);
            proof {
                assert(files@ =~= before.update(k as int, entry));
                assert(files_view(files@) =~= fv.update(
                    k as int,
                    (fv[k as int].0, fv[k as int].1, fv[k as int].2, fv[k as int].3.push(h)),
                ));
            }
            return;
        }
        k = k + 1;
    }
    proof {
        assert(!exists|c: int| first_match(fv, opt_chars(*sec_old), opt_chars(*sec_new), c));
    }
}

fn patch_line_exec(
    sec_old: &mut Option<Vec<char>>,
    sec_new: &mut Option<Vec<char>>,
    files: &mut Vec<ChangedFile>,
    line: &Vec<char>,
)
    ensures
        (opt_chars(*final(sec_old)), opt_chars(*final(sec_new)), files_view(final(files)@)) == patch_line(
            (opt_chars(*old(sec_old)), opt_chars(*old(sec_new)), files_view(old(files)@)),
            line@,
        ),
{
    proof {
        reveal_strlit("--- a/");
        reveal_strlit("+++ b/");
        reveal_strlit("@@ ");
    }
    if crate::text::starts_with_exec(line, &crate::text::chars_of("--- a/")) {
        *sec_old = Some(crate::text::suffix_from(line, 6));
        *sec_new = None;
        assert(line@.subrange(6, line@.len() as int) =~= line@.skip(6));
        return;
    }
    if crate::text::starts_with_exec(line, &crate::text::chars_of("+++ b/")) {
        *sec_new = Some(crate::text::suffix_from(line, 6));
        assert(line@.subrange(6, line@.len() as int) =~= line@.skip(6));
        return;
    }
    if crate::text::seq_eq(line, &crate::text::chars_of("+++ /dev/null")) {
        *sec_new = None;
        return;
    }
    if !crate::text::starts_with_exec(line, &crate::text::chars_of("@@ ")) {
        return;
    }
    let hunk = crate::text::suffix_from(line, 3);
    assert(hunk@ =~= line@.skip(3));
    let parts = split_ws(&hunk);
    if parts.len() < 2 {
        return;
    }
    proof {
        assert(char_views(parts@)[0] == parts@[0]@);
        assert(char_views(parts@)[1] == parts@[1]@);
    }
    match (parse_range_exec(&parts[0]), parse_range_exec(&parts[1])) {
        (Some((os, oc)), Some((ns, nc))) => {
            let h = ChangedRange {
                old_start: os,
                old_end: os.saturating_add(oc),
                new_start: ns,
                new_end: ns.saturating_add(nc),
            };
            add_hunk_exec(files, sec_old, sec_new, h);
        },
        _ => {},
    }
}

/// Why a patch could not be read.
#[derive(Debug, Clone, Copy, PartialEq, Eq, Structural)]
pub enum PatchError {
    /// The patch is not UTF-8 text.
    NotText,
}

/// Records the hunks of a zero-context `git diff` in the files they touch.
/// A patch that is not UTF-8 text is refused and changes nothing.
pub fn collect_branch_patch(output: Vec<u8>, files: &mut Vec<ChangedFile>) -> (r: Result<(), PatchError>)
    ensures
        match crate::scope::utf8_decoded(output@) {
            None => r is Err && final(files)@ == old(files)@,
            Some(text) => r is Ok && files_view(final(files)@) == patch_lines(
                (None, None, files_view(old(files)@)),
                text_lines(text),
            ).2,
        },
{
    let text = match decode_utf8(output) {
        Some(t) => t,
        None => {
            return Err(PatchError::NotText);
        },
    };
    let lines = split_lines(&crate::text::chars_of(text.as_str()));
    let ghost lv = char_views(lines@);
    let ghost start = files_view(files@);
    let mut sec_old: Option<Vec<char>> = None;
    let mut sec_new: Option<Vec<char>> = None;
    let mut i: usize = 0;
    assert(lv.take(0) =~= Seq::<Seq<char>>::empty());
    while i < lines.len()
        invariant
            i <= lines.len(),
            lv == char_views(lines@),
            lv.len() == lines@.len(),
            (opt_chars(sec_old), opt_chars(sec_new), files_view(files@)) == patch_lines(
                (None, None, start),
                lv.take(i as int),
            ),
        decreases lines.len() - i,
    {
        proof {
            assert(lv.take(i + 1).drop_last() =~= lv.take(i as int));
            assert(lv.take(i + 1).last() == lines@[i as int]@);
        }
        patch_line_exec(&mut sec_old, &mut sec_new, files, &lines[i]);
        i = i + 1;
    }
    assert(lv.take(lines.len() as int) =~= lv);
    Ok(())
}

// ---------------------------------------------------------------------------
// Diff views

/// An added line of a patch: it starts with `+` but not `+++`.
pub open spec fn is_addition(line: Seq<char>) -> bool {
    crate::text::starts_with(line, "+"@) && !crate::text::starts_with(line, "+++"@)
}

/// A removed line of a patch: it starts with `-` but not `---`.
pub open spec fn is_deletion(line: Seq<char>) -> bool {
    crate::text::starts_with(line, "-"@) && !crate::text::starts_with(line, "---"@)
}

/// How many of the lines satisfy `is_addition` (or `is_deletion`).
pub open spec fn count_lines(lines: Seq<Seq<char>>, additions: bool) -> nat
    decreases lines.len(),
{
    if lines.len() == 0 {
        0
    } else {
        count_lines(lines.drop_last(), additions) + if (additions && is_addition(lines.last())) || (
        !additions && is_deletion(lines.last())) {
            1nat
        } else {
            0nat
        }
    }
}

proof fn lemma_count_bound(lines: Seq<Seq<char>>, additions: bool)
    ensures
        count_lines(lines, additions) <= lines.len(),
    decreases lines.len(),
{
    if lines.len() > 0 {
        lemma_count_bound(lines.drop_last(), additions);
    }
}

/// The added and removed lines of a patch.
pub fn patch_line_counts(patch: &str) -> (r: (usize, usize))
    ensures
        r.0 as nat == count_lines(text_lines(patch@), true),
        r.1 as nat == count_lines(text_lines(patch@), false),
{
    let lines = split_lines(&crate::text::chars_of(patch));
    let ghost lv = char_views(lines@);
    let plus = crate::text::chars_of("+");
    let plus3 = crate::text::chars_of("+++");
    let minus = crate::text::chars_of("-");
    let minus3 = crate::text::chars_of("---");
    let mut additions: usize = 0;
    let mut deletions: usize = 0;
    let mut i: usize = 0;
    assert(lv.take(0) =~= Seq::<Seq<char>>::empty());
    while i < lines.len()
        invariant
            i <= lines.len(),
            lv == char_views(lines@),
            lv.len() == lines@.len(),
            plus@ == "+"@ && plus3@ == "+++"@ && minus@ == "-"@ && minus3@ == "---"@,
            additions as nat == count_lines(lv.take(i as int), true),
            deletions as nat == count_lines(lv.take(i as int), false),
            additions <= i && deletions <= i,
        decreases lines.len() - i,
    {
        let line = &lines[i];
        proof {
            assert(lv.take(i + 1).drop_last() =~= lv.take(i as int));
            assert(lv.take(i + 1).last() == line@);
        }
        if crate::text::starts_with_exec(line, &plus) && !crate::text::starts_with_exec(line, &plus3) {
            additions = additions + 1;
        }
        if crate::text::starts_with_exec(line, &minus) && !crate::text::starts_with_exec(line, &minus3) {
            deletions = deletions + 1;
        }
        i = i + 1;
    }
    assert(lv.take(i as int) =~= lv);
    (additions, deletions)
}

/// The lines of `lines`, each as `+line\n`.
pub open spec fn added_lines(lines: Seq<Seq<char>>) -> Seq<char>
    decreases lines.len(),
{
    if lines.len() == 0 {
        Seq::empty()
    } else {
        added_lines(lines.drop_last()) + "+"@ + lines.last() + "\n"@
    }
}

/// The patch shown for an untracked file: the whole content as added.
pub open spec fn spec_untracked_patch(path: Seq<char>, content: Seq<char>) -> Seq<char> {
    "diff --git a/"@ + path + " b/"@ + path + "\nnew file mode 100644\n--- /dev/null\n+++ b/"@
        + path + "\n@@ -0,0 +1,"@ + crate::text::decimal(text_lines(content).len()) + " @@\n"@
        + added_lines(text_lines(content))
}

/// The patch of an untracked file with `content` at `path`.
pub fn untracked_patch(path: &str, content: &str) -> (r: String)
    ensures
        r@ == spec_untracked_patch(path@, content@),
{
    let lines = split_lines(&crate::text::chars_of(content));
    let ghost lv = char_views(lines@);
    let mut r = crate::text::owned("diff --git a/");
    crate::text::append(&mut r, path);
    crate::text::append(&mut r, " b/");
    crate::text::append(&mut r, path);
    crate::text::append(&mut r, "\nnew file mode 100644\n--- /dev/null\n+++ b/");
    crate::text::append(&mut r, path);
    crate::text::append(&mut r, "\n@@ -0,0 +1,");
    let count = crate::text::usize_to_decimal(lines.len());
    crate::text::append(&mut r, count.as_str());
    crate::text::append(&mut r, " @@\n");
    let ghost head = r@;
    let mut i: usize = 0;
    assert(lv.take(0) =~= Seq::<Seq<char>>::empty());
    while i < lines.len()
        invariant
            i <= lines.len(),
            lv == char_views(lines@),
            lv.len() == lines@.len(),
            r@ == head + added_lines(lv.take(i as int)),
        decreases lines.len() - i,
    {
        proof {
            assert(lv.take(i + 1).drop_last() =~= lv.take(i as int));
            assert(lv.take(i + 1).last() == lines@[i as int]@);
        }
        crate::text::append(&mut r, "+");
        let line = crate::text::string_of(&lines[i]);
        crate::text::append(&mut r, line.as_str());
        crate::text::append(&mut r, "\n");
        proof {
            assert(r@ =~= head + added_lines(lv.take(i + 1)));
        }
        i = i + 1;
    }
    assert(lv.take(i as int) =~= lv);
    assert(r@ =~= spec_untracked_patch(path@, content@));
    r
}

/// One file of a diff view.
#[derive(Debug, Clone)]
pub struct ScopeDiffFileView {
    pub path: String,
    pub status: ChangeStatus,
    pub additions: usize,
    pub deletions: usize,
    pub patch: String,
}

/// A diff view of a range.
#[derive(Debug, Clone)]
pub struct ScopeDiffView {
    pub range: String,
    pub state: String,
    pub additions: usize,
    pub deletions: usize,
    pub files: Vec<ScopeDiffFileView>,
}

/// An untracked file that Git shows no patch for is shown with its content.
pub open spec fn shows_content(patch: Seq<char>, status: ChangeStatus) -> bool {
    patch.len() == 0 && status == ChangeStatus::Untracked
}

/// Whether the file's content must be read to show it.
pub fn needs_untracked_content(patch: &str, status: ChangeStatus) -> (r: bool)
    ensures
        r == shows_content(patch@, status),
{
    crate::text::chars_of(patch).len() == 0 && status == ChangeStatus::Untracked
}

/// The diff view of one file: the patch Git showed for it, or for an
/// untracked file with none, its content (`content`, empty when it could
/// not be read) as added lines; and the patch's added and removed lines.
pub fn diff_file_view(path: String, status: ChangeStatus, patch: String, content: &str) -> (r: ScopeDiffFileView)
    ensures
        r.path == path,
        r.status == status,
        r.patch@ == (if shows_content(patch@, status) {
            spec_untracked_patch(path@, content@)
        } else {
            patch@
        }),
        r.additions as nat == count_lines(text_lines(r.patch@), true),
        r.deletions as nat == count_lines(text_lines(r.patch@), false),
{
    let shown = if needs_untracked_content(patch.as_str(), status) {
        untracked_patch(path.as_str(), content)
    } else {
        patch
    };
    let (additions, deletions) = patch_line_counts(shown.as_str());
    ScopeDiffFileView { path, status, additions, deletions, patch: shown }
}

pub open spec fn files_total(files: Seq<ScopeDiffFileView>, additions: bool) -> nat
    decreases files.len(),
{
    if files.len() == 0 {
        0
    } else {
        files_total(files.drop_last(), additions) + if additions {
            files.last().additions as nat
        } else {
            files.last().deletions as nat
        }
    }
}

proof fn lemma_files_total_prefix(files: Seq<ScopeDiffFileView>, n: int, additions: bool)
    requires
        0 <= n <= files.len(),
    ensures
        files_total(files.take(n), additions) <= files_total(files, additions),
    decreases files.len() - n,
{
    if n < files.len() {
        lemma_files_total_prefix(files, n + 1, additions);
        assert(files.take(n + 1).drop_last() =~= files.take(n));
    } else {
        assert(files.take(n) =~= files);
    }
}

/// The diff view of a range: its files, their added and removed lines in
/// total, and whether there is anything to show.
pub fn scope_diff_view(range: String, files: Vec<ScopeDiffFileView>) -> (r: ScopeDiffView)
    requires
        files_total(files@, true) <= usize::MAX,
        files_total(files@, false) <= usize::MAX,
    ensures
        r.range == range,
        r.files == files,
        r.additions as nat == files_total(files@, true),
        r.deletions as nat == files_total(files@, false),
        r.state@ == (if files@.len() == 0 {
            "empty"@
        } else {
            "ready"@
        }),
{
    let mut additions: usize = 0;
    let mut deletions: usize = 0;
    let mut i: usize = 0;
    assert(files@.take(0) =~= Seq::<ScopeDiffFileView>::empty());
    while i < files.len()
        invariant
            i <= files.len(),
            files_total(files@, true) <= usize::MAX,
            files_total(files@, false) <= usize::MAX,
            additions as nat == files_total(files@.take(i as int), true),
            deletions as nat == files_total(files@.take(i as int), false),
        decreases files.len() - i,
    {
        proof {
            assert(files@.take(i + 1).drop_last() =~= files@.take(i as int));
            assert(files@.take(i + 1).last() == files@[i as int]);
            lemma_files_total_prefix(files@, i + 1, true);
            lemma_files_total_prefix(files@, i + 1, false);
        }
        additions = additions + files[i].additions;
        deletions = deletions + files[i].deletions;
        i = i + 1;
    }
    assert(files@.take(i as int) =~= files@);
    let state = if files.len() == 0 {
        crate::text::owned("empty")
    } else {
        crate::text::owned("ready")
    };
    ScopeDiffView { range, state, additions, deletions, files }
}

// ---------------------------------------------------------------------------
// Untracked files

/// Records the untracked paths (`git ls-files --others -z`): each path that
/// no recorded file has as its new path is added as untracked.
pub open spec fn record_untracked(
    files: Seq<(ChangeStatus, Option<Seq<char>>, Option<Seq<char>>, Seq<ChangedRange>)>,
    paths: Seq<Seq<char>>,
) -> Seq<(ChangeStatus, Option<Seq<char>>, Option<Seq<char>>, Seq<ChangedRange>)>
    decreases paths.len(),
{
    if paths.len() == 0 {
        files
    } else {
        let before = record_untracked(files, paths.drop_last());
        let p = paths.last();
        if exists|k: int| 0 <= k < before.len() && before[k].2 == Some(p) {
            before
        } else {
            before.push((ChangeStatus::Untracked, None, Some(p), Seq::empty()))
        }
    }
}

/// Records the untracked files listed in `git ls-files --others
/// --exclude-standard -z` output.
pub fn collect_untracked(output: &Vec<u8>, files: &mut Vec<ChangedFile>)
    ensures
        files_view(final(files)@) == record_untracked(
            files_view(old(files)@),
            nul_fields(output@).map_values(|f: Seq<u8>| crate::scope::utf8_lossy(f)),
        ),
{
    let fields = split_nul_fields(output);
    let ghost paths = nul_fields(output@).map_values(|f: Seq<u8>| crate::scope::utf8_lossy(f));
    let ghost start = files_view(files@);
    let mut i: usize = 0;
    assert(paths.take(0) =~= Seq::<Seq<char>>::empty());
    while i < fields.len()
        invariant
            i <= fields.len(),
            byte_views(fields@) == nul_fields(output@),
            paths == nul_fields(output@).map_values(|f: Seq<u8>| crate::scope::utf8_lossy(f)),
            paths.len() == fields@.len(),
            files_view(files@) == record_untracked(start, paths.take(i as int)),
        decreases fields.len() - i,
    {
        let path = decode_utf8_lossy(fields[i].as_slice());
        proof {
            assert(byte_views(fields@)[i as int] == fields@[i as int]@);
            assert(paths[i as int] == path@);
            assert(paths.take(i + 1).drop_last() =~= paths.take(i as int));
            assert(paths.take(i + 1).last() == path@);
        }
        let ghost fv = files_view(files@);
        let mut found = false;
        let mut k: usize = 0;
        while k < files.len()
            invariant
                k <= files.len(),
                fv == files_view(files@),
                fv.len() == files@.len(),
                found ==> exists|j: int| 0 <= j < fv.len() && fv[j].2 == Some(path@),
                !found ==> forall|j: int| 0 <= j < k ==> fv[j].2 != Some(path@),
            decreases files.len() - k,
        {
            proof {
                assert(fv[k as int] == file_view(files@[k as int]));
            }
            match &files[k].new_path {
                Some(p) => {
                    if crate::text::str_eq(p.as_str(), path.as_str()) {
                        found = true;
                    }
                },
                None => {},
            }
            k = k + 1;
        }
        if !found {
            let ghost before = files@;
            files.push(ChangedFile { status: ChangeStatus::Untracked, old_path: None, new_path: Some(path), hunks: Vec::new() });
            proof {
                assert(files_view(files@) =~= fv.push((ChangeStatus::Untracked, None, Some(paths[i as int]), Seq::empty())));
            }
        }
        i = i + 1;
    }
    assert(paths.take(i as int) =~= paths);
}

} // verus!
