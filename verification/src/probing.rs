//! What the program reads from the machine, turned into facts: whether
//! `/etc/fstab`, `/proc/mounts` or `/proc/swaps` refers to a device or a
//! path, the size that `lsblk` prints, and the device type it prints.
//! The reading itself is left to the caller, which hands the text in.
use vstd::prelude::*;
use crate::parser::{digits_value, is_digit_char};
use crate::text::{
    is_white_space, is_whitespace_char, keep_nonempty, lemma_split_nonempty, split_at_char, split_on,
    trim_str, trimmed,
};

verus! {

/// `l` without one trailing carriage return.
pub open spec fn strip_cr(l: Seq<char>) -> Seq<char> {
    if l.len() > 0 && l.last() == '\r' {
        l.drop_last()
    } else {
        l
    }
}

/// The lines of `s` as `str::lines` gives them: split at `\n`, a `\r`
/// before the `\n` removed, and no empty line after a final `\n`.
pub open spec fn lines_of(s: Seq<char>) -> Seq<Seq<char>> {
    let parts = split_on(s, '\n');
    let ended = Seq::new((parts.len() - 1) as nat, |i: int| strip_cr(parts[i]));
    if parts.last().len() > 0 {
        ended.push(parts.last())
    } else {
        ended
    }
}

/// Whether `needle` occurs in `h` (`str::contains`).
pub open spec fn contains(h: Seq<char>, needle: Seq<char>) -> bool {
    exists|i: int| 0 <= i <= h.len() - needle.len() && #[trigger] h.subrange(i, i + needle.len()) == needle
}

/// A comment line of `/etc/fstab`.
pub open spec fn is_comment(l: Seq<char>) -> bool {
    l.len() > 0 && l[0] == '#'
}

/// Whether some line of `lines` (not a comment, when `skip_comments`)
/// contains `needle`.
pub open spec fn line_hit(lines: Seq<Seq<char>>, needle: Seq<char>, skip_comments: bool) -> bool {
    exists|j: int|
        0 <= j < lines.len() && (!skip_comments || !is_comment(lines[j])) && contains(
            #[trigger] lines[j],
            needle,
        )
}

/// Whether a line of `fstab` that is not a comment contains `needle`.
pub open spec fn live_ref(fstab: Seq<char>, needle: Seq<char>) -> bool {
    line_hit(lines_of(fstab), needle, true)
}

/// Whether a line of `text` contains `needle`.
pub open spec fn mentions(text: Seq<char>, needle: Seq<char>) -> bool {
    line_hit(lines_of(text), needle, false)
}

fn strip_cr_str(l: &str) -> (r: String)
    ensures
        r@ == strip_cr(l@),
{
    let n = l.unicode_len();
    if n > 0 && l.get_char(n - 1) == '\r' {
        let t = l.substring_char(0, n - 1);
        assert(t@ =~= l@.drop_last());
        String::from_str(t)
    } else {
        String::from_str(l)
    }
}

/// The lines of `s` (see `lines_of`).
pub fn split_lines(s: &str) -> (r: Vec<String>)
    ensures
        r.deep_view() == lines_of(s@),
{
    let parts = split_at_char(s, '\n');
    let ghost pv = split_on(s@, '\n');
    proof {
        lemma_split_nonempty(s@, '\n');
    }
    let k = parts.len() - 1;
    let mut out: Vec<String> = Vec::new();
    let mut i: usize = 0;
    while i < k
        invariant
            pv == parts.deep_view(),
            k == parts.len() - 1,
            parts.len() >= 1,
            i <= k,
            out.deep_view() =~= Seq::new(i as nat, |j: int| strip_cr(pv[j])),
        decreases k - i,
    {
        assert(pv[i as int] == parts@[i as int]@);
        let ghost before = out.deep_view();
        out.push(strip_cr_str(parts[i].as_str()));
        assert(out.deep_view() =~= before.push(strip_cr(pv[i as int])));
        i = i + 1;
    }
    assert(pv[k as int] == parts@[k as int]@);
    if parts[k].as_str().unicode_len() > 0 {
        let ghost before = out.deep_view();
        out.push(String::from_str(parts[k].as_str()));
        assert(out.deep_view() =~= before.push(pv.last()));
    }
    out
}

fn matches_at(h: &str, needle: &str, i: usize) -> (b: bool)
    requires
        i + needle@.len() <= h@.len(),
    ensures
        b == (h@.subrange(i as int, i + needle@.len()) == needle@),
{
    let hl = h.unicode_len();
    let m = needle.unicode_len();
    let mut k: usize = 0;
    while k < m
        invariant
            m == needle@.len(),
            hl == h@.len(),
            i + m <= h@.len(),
            k <= m,
            forall|j: int| 0 <= j < k ==> h@[i + j] == needle@[j],
        decreases m - k,
    {
        if h.get_char(i + k) != needle.get_char(k) {
            assert(h@.subrange(i as int, i + m)[k as int] != needle@[k as int]);
            return false;
        }
        k = k + 1;
    }
    assert(h@.subrange(i as int, i + m) =~= needle@);
    true
}

/// Whether `needle` occurs in `h` (see `contains`).
pub fn str_contains(h: &str, needle: &str) -> (b: bool)
    ensures
        b == contains(h@, needle@),
{
    let hl = h.unicode_len();
    let nl = needle.unicode_len();
    if nl > hl {
        return false;
    }
    let mut i: usize = 0;
    while i < hl - nl
        invariant
            hl == h@.len(),
            nl == needle@.len(),
            nl <= hl,
            i <= hl - nl,
            forall|k: int| 0 <= k < i ==> #[trigger] h@.subrange(k, k + nl) != needle@,
        decreases hl - nl - i,
    {
        if matches_at(h, needle, i) {
            return true;
        }
        i = i + 1;
    }
    matches_at(h, needle, hl - nl)
}

/// Whether some line (not a comment, when `skip_comments`) contains
/// `needle` (see `line_hit`).
fn lines_hit(lines: &Vec<String>, needle: &str, skip_comments: bool) -> (b: bool)
    ensures
        b == line_hit(lines.deep_view(), needle@, skip_comments),
{
    let ghost lv = lines.deep_view();
    let mut j: usize = 0;
    while j < lines.len()
        invariant
            lv == lines.deep_view(),
            j <= lines.len(),
            forall|k: int|
                0 <= k < j ==> !((!skip_comments || !is_comment(lv[k])) && contains(
                    #[trigger] lv[k],
                    needle@,
                )),
        decreases lines.len() - j,
    {
        assert(lv[j as int] == lines@[j as int]@);
        let l = lines[j].as_str();
        let comment = l.unicode_len() > 0 && l.get_char(0) == '#';
        if (!skip_comments || !comment) && str_contains(l, needle) {
            return true;
        }
        j = j + 1;
    }
    false
}

/// Whether `fstab` refers to `device` or to `mount_path` (see
/// `fstab_references`).
pub open spec fn refers(fstab: Seq<char>, device: Seq<char>, mount_path: Seq<char>, blkid_out: Seq<char>) -> bool {
    ||| (mount_path != ""@ && mount_path != "none"@ && live_ref(fstab, mount_path))
    ||| (trimmed(blkid_out) != ""@ && live_ref(fstab, trimmed(blkid_out)))
    ||| live_ref(fstab, device)
}

/// Whether `/etc/fstab` (given as `fstab`) refers to the device to be
/// wiped or to the mount point: a non-comment line holds the mount point
/// (unless it is empty or `none`), the UUID that `blkid` printed for the
/// device (`blkid_out`, trimmed, unless empty), or the device path.
pub fn fstab_references(fstab: &str, device: &str, mount_path: &str, blkid_out: &str) -> (b: bool)
    ensures
        b == ((mount_path@ != ""@ && mount_path@ != "none"@ && live_ref(fstab@, mount_path@)) || (
        trimmed(blkid_out@) != ""@ && live_ref(fstab@, trimmed(blkid_out@))) || live_ref(
            fstab@,
            device@,
        )),
{
    proof {
        reveal_strlit("");
        reveal_strlit("none");
    }
    let lines = split_lines(fstab);
    let mn = mount_path.unicode_len();
    let is_none = mn == 4 && mount_path.get_char(0) == 'n' && mount_path.get_char(1) == 'o'
        && mount_path.get_char(2) == 'n' && mount_path.get_char(3) == 'e';
    proof {
        if mn == 4 {
            if is_none {
                assert(mount_path@ =~= "none"@);
            } else {
                assert(mount_path@ != "none"@) by {
                    if mount_path@ == "none"@ {
                        assert(mount_path@[0] == 'n');
                    }
                }
            }
        }
    }
    proof {
        assert(""@.len() == 0);
        if mn == 0 {
            assert(mount_path@ =~= ""@);
        }
    }
    if mn > 0 && !is_none && lines_hit(&lines, mount_path, true) {
        return true;
    }
    let uuid = trim_str(blkid_out);
    proof {
        if uuid@.len() == 0 {
            assert(uuid@ =~= ""@);
        }
    }
    if uuid.as_str().unicode_len() > 0 && lines_hit(&lines, uuid.as_str(), true) {
        return true;
    }
    lines_hit(&lines, device, true)
}

/// Whether a line of `text` (such as `/proc/mounts` or `/proc/swaps`)
/// contains `needle` (see `mentions`).
pub fn text_mentions(text: &str, needle: &str) -> (b: bool)
    ensures
        b == mentions(text@, needle@),
{
    let lines = split_lines(text);
    lines_hit(&lines, needle, false)
}

/// The digits of a size, after an optional leading `+`.
pub open spec fn size_digits(t: Seq<char>) -> Seq<char> {
    if t.len() > 0 && t[0] == '+' {
        t.drop_first()
    } else {
        t
    }
}

pub open spec fn all_digits(d: Seq<char>) -> bool {
    forall|i: int| 0 <= i < d.len() ==> is_digit_char(#[trigger] d[i])
}

/// What `lsblk -b` printed, read as a byte count: the trimmed text must
/// be an optional `+` and digits that fit in 64 bits (`u64::from_str`).
pub open spec fn spec_parse_size_output(out: Seq<char>) -> Result<u64, Seq<char>> {
    let t = trimmed(out);
    let d = size_digits(t);
    if d.len() > 0 && all_digits(d) && digits_value(d) <= u64::MAX {
        Ok(digits_value(d) as u64)
    } else {
        Err("Failed to parse size: "@ + t)
    }
}

/// Reads the size that `lsblk -b` printed (see `spec_parse_size_output`).
pub fn parse_size_output(out: &str) -> (r: Result<u64, String>)
    ensures
        match spec_parse_size_output(out@) {
            Ok(v) => r matches Ok(x) && x == v,
            Err(e) => r matches Err(m) && m@ == e,
        },
{
    let t = trim_str(out);
    let ts = t.as_str();
    let n = ts.unicode_len();
    let start: usize = if n > 0 && ts.get_char(0) == '+' {
        1
    } else {
        0
    };
    let d = ts.substring_char(start, n);
    proof {
        if start == 1 {
            assert(d@ =~= t@.drop_first());
        } else {
            assert(d@ =~= t@);
        }
        assert(d@ == size_digits(t@));
    }
    let m = d.unicode_len();
    let mut k: usize = 0;
    let mut val: u128 = 0;
    let mut ok = true;
    assert(d@.take(0) =~= Seq::<char>::empty());
    while k < m
        invariant
            m == d@.len(),
            ts@ == trimmed(out@),
            d@ == size_digits(ts@),
            k <= m,
            forall|j: int| 0 <= j < k ==> is_digit_char(#[trigger] d@[j]),
            ok == (digits_value(d@.take(k as int)) <= u64::MAX),
            ok ==> val == digits_value(d@.take(k as int)),
        decreases m - k,
    {
        let c = d.get_char(k);
        if !('0' <= c && c <= '9') {
            let mut msg = String::from_str("Failed to parse size: ");
            msg.append(ts);
            assert(!is_digit_char(d@[k as int]));
            assert(!all_digits(d@));
            return Err(msg);
        }
        assert(d@.take(k + 1).drop_last() =~= d@.take(k as int));
        assert(d@.take(k + 1).last() == c);
        if ok {
            let nv = val * 10 + ((c as u32) - 48) as u128;
            if nv > u64::MAX as u128 {
                ok = false;
            } else {
                val = nv;
            }
        } else {
            proof {
                lemma_digits_grow(d@.take(k as int), c);
            }
        }
        k = k + 1;
    }
    assert(d@.take(m as int) =~= d@);
    if m == 0 || !ok {
        let mut msg = String::from_str("Failed to parse size: ");
        msg.append(ts);
        return Err(msg);
    }
    Ok(val as u64)
}

proof fn lemma_digits_grow(s: Seq<char>, c: char)
    requires
        is_digit_char(c),
    ensures
        digits_value(s.push(c)) >= digits_value(s),
{
    assert(s.push(c).drop_last() =~= s);
}

/// Whether the device type that `lsblk -d -o TYPE` printed names a whole
/// disk: anything but an empty answer or `part`.
pub open spec fn is_whole_disk(out: Seq<char>) -> bool {
    let t = trimmed(out);
    t.len() > 0 && t != "part"@
}

/// Reads the device type that `lsblk` printed (see `is_whole_disk`).
pub fn is_full_disk_type(out: &str) -> (b: bool)
    ensures
        b == is_whole_disk(out@),
{
    proof {
        reveal_strlit("part");
    }
    let t = trim_str(out);
    let ts = t.as_str();
    let n = ts.unicode_len();
    if n == 0 {
        return false;
    }
    let part = n == 4 && ts.get_char(0) == 'p' && ts.get_char(1) == 'a' && ts.get_char(2) == 'r'
        && ts.get_char(3) == 't';
    proof {
        if part {
            assert(t@ =~= "part"@);
        } else if t@ == "part"@ {
            assert(t@[0] == 'p');
        }
    }
    !part
}

// ----- several names for one path ----------------------------------------

/// Whether a line of `text` contains one of `needles` (the names under
/// which one path is known).
pub fn text_mentions_any(text: &str, needles: &Vec<String>) -> (b: bool)
    ensures
        b == exists|k: int| 0 <= k < needles@.len() && mentions(text@, #[trigger] needles@[k]@),
{
    let mut k: usize = 0;
    while k < needles.len()
        invariant
            k <= needles.len(),
            forall|j: int| 0 <= j < k ==> !mentions(text@, #[trigger] needles@[j]@),
        decreases needles.len() - k,
    {
        if text_mentions(text, needles[k].as_str()) {
            return true;
        }
        k = k + 1;
    }
    false
}

/// Whether `/etc/fstab` refers to the device under one of its names
/// `devices` or to the mount point (see `fstab_references`).
pub fn fstab_references_any(
    fstab: &str,
    devices: &Vec<String>,
    mount_path: &str,
    blkid_out: &str,
) -> (b: bool)
    ensures
        b == exists|k: int|
            0 <= k < devices@.len() && #[trigger] refers(
                fstab@,
                devices@[k]@,
                mount_path@,
                blkid_out@,
            ),
{
    let mut k: usize = 0;
    while k < devices.len()
        invariant
            k <= devices.len(),
            forall|j: int|
                0 <= j < k ==> !#[trigger] refers(fstab@, devices@[j]@, mount_path@, blkid_out@),
        decreases devices.len() - k,
    {
        let hit = fstab_references(fstab, devices[k].as_str(), mount_path, blkid_out);
        assert(hit == refers(fstab@, devices@[k as int]@, mount_path@, blkid_out@));
        if hit {
            return true;
        }
        k = k + 1;
    }
    false
}

// ----- the root check ---------------------------------------------------

/// Splits `s` at every whitespace character, keeping empty pieces.
pub open spec fn split_ws(s: Seq<char>) -> Seq<Seq<char>>
    decreases s.len(),
{
    if s.len() == 0 {
        seq![Seq::<char>::empty()]
    } else {
        let init = split_ws(s.drop_last());
        if is_white_space(s.last()) {
            init.push(Seq::<char>::empty())
        } else {
            init.update(init.len() - 1, init.last().push(s.last()))
        }
    }
}

/// The words of `s`, as `str::split_whitespace` gives them.
pub open spec fn words(s: Seq<char>) -> Seq<Seq<char>> {
    keep_nonempty(split_ws(s))
}

proof fn lemma_split_ws_nonempty(s: Seq<char>)
    ensures
        split_ws(s).len() >= 1,
    decreases s.len(),
{
    if s.len() > 0 {
        lemma_split_ws_nonempty(s.drop_last());
    }
}

fn split_whitespace_pieces(s: &str) -> (parts: Vec<String>)
    ensures
        parts.deep_view() == split_ws(s@),
{
    let n = s.unicode_len();
    let mut parts: Vec<String> = Vec::new();
    let mut cur = String::new();
    let mut i: usize = 0;
    assert(s@.take(0) =~= Seq::<char>::empty());
    assert(parts.deep_view().push(cur@) =~= split_ws(s@.take(0)));
    while i < n
        invariant
            n == s@.len(),
            i <= n,
            parts.deep_view().push(cur@) == split_ws(s@.take(i as int)),
        decreases n - i,
    {
        let c = s.get_char(i);
        let ghost before = parts.deep_view();
        let ghost cur_before = cur@;
        assert(s@.take(i + 1).drop_last() =~= s@.take(i as int));
        assert(s@.take(i + 1).last() == c);
        if is_whitespace_char(c) {
            parts.push(cur);
            cur = String::new();
            assert(parts.deep_view() =~= before.push(cur_before));
            assert(parts.deep_view().push(cur@) =~= before.push(cur_before).push(
                Seq::<char>::empty(),
            ));
        } else {
            crate::text::push_char(&mut cur, c);
            assert(parts.deep_view() =~= before);
            assert(parts.deep_view().push(cur@) =~= before.push(cur_before).update(
                before.len() as int,
                cur_before.push(c),
            ));
        }
        i = i + 1;
    }
    let ghost before = parts.deep_view();
    parts.push(cur);
    assert(parts.deep_view() =~= before.push(cur@));
    assert(s@.take(n as int) =~= s@);
    parts
}

/// The words of `s` (see `words`).
pub fn split_words(s: &str) -> (r: Vec<String>)
    ensures
        r.deep_view() == words(s@),
{
    let pieces = split_whitespace_pieces(s);
    let ghost pv = pieces.deep_view();
    let mut r: Vec<String> = Vec::new();
    let mut j: usize = 0;
    assert(pv.take(0) =~= Seq::<Seq<char>>::empty());
    assert(r.deep_view() =~= keep_nonempty(pv.take(0)));
    while j < pieces.len()
        invariant
            j <= pieces.len(),
            pv == pieces.deep_view(),
            r.deep_view() == keep_nonempty(pv.take(j as int)),
        decreases pieces.len() - j,
    {
        assert(pv.take(j + 1).drop_last() =~= pv.take(j as int));
        assert(pv.take(j + 1).last() == pieces@[j as int]@);
        if pieces[j].as_str().unicode_len() > 0 {
            let ghost before = r.deep_view();
            r.push(String::from_str(pieces[j].as_str()));
            assert(r.deep_view() =~= before.push(pieces@[j as int]@));
        }
        j = j + 1;
    }
    assert(pv.take(pieces.len() as int) =~= pv);
    r
}

/// Whether `l` begins with `Uid:`.
pub open spec fn is_uid_line(l: Seq<char>) -> bool {
    l.len() >= 4 && l.take(4) == "Uid:"@
}

/// The first line of `lines` that begins with `Uid:`.
pub open spec fn uid_line(lines: Seq<Seq<char>>) -> Option<Seq<char>>
    decreases lines.len(),
{
    if lines.len() == 0 {
        None
    } else if is_uid_line(lines[0]) {
        Some(lines[0])
    } else {
        uid_line(lines.drop_first())
    }
}

/// Whether `/proc/self/status` (given as `status`) shows a real user id
/// of 0: the second word of the first `Uid:` line is `0`.
pub open spec fn shows_root(status: Seq<char>) -> bool {
    match uid_line(lines_of(status)) {
        Some(l) => words(l).len() > 1 && words(l)[1] == "0"@,
        None => false,
    }
}

/// Whether the status text shows the root user (see `shows_root`).
pub fn status_is_root(status: &str) -> (b: bool)
    ensures
        b == shows_root(status@),
{
    proof {
        reveal_strlit("Uid:");
        reveal_strlit("0");
    }
    let lines = split_lines(status);
    let ghost lv = lines.deep_view();
    assert(lv.skip(0) =~= lv);
    let mut j: usize = 0;
    while j < lines.len()
        invariant
            lv == lines.deep_view(),
            lv == lines_of(status@),
            j <= lines.len(),
            uid_line(lv) == uid_line(lv.skip(j as int)),
        decreases lines.len() - j,
    {
        proof {
            reveal_strlit("Uid:");
            reveal_strlit("0");
        }
        let l = lines[j].as_str();
        assert(lv[j as int] == l@);
        assert(lv.skip(j as int)[0] == l@);
        assert(lv.skip(j as int).drop_first() =~= lv.skip(j + 1));
        let n = l.unicode_len();
        let uid = n >= 4 && l.get_char(0) == 'U' && l.get_char(1) == 'i' && l.get_char(2) == 'd'
            && l.get_char(3) == ':';
        proof {
            if n >= 4 {
                if uid {
                    assert(l@.take(4) =~= "Uid:"@);
                } else if l@.take(4) == "Uid:"@ {
                    assert(l@[0] == l@.take(4)[0]);
                    assert(l@[1] == l@.take(4)[1]);
                    assert(l@[2] == l@.take(4)[2]);
                    assert(l@[3] == l@.take(4)[3]);
                }
            }
        }
        if uid {
            let w = split_words(l);
            if w.len() > 1 {
                assert(w.deep_view()[1] == w@[1]@);
                let z = w[1].as_str();
                let is_zero = z.unicode_len() == 1 && z.get_char(0) == '0';
                proof {
                    if is_zero {
                        assert(z@ =~= "0"@);
                    } else if z@ == "0"@ {
                        assert(z@[0] == '0');
                    }
                }
                assert(is_uid_line(l@));
                assert(uid_line(lv.skip(j as int)) == Some(l@));
                assert(w.deep_view() == words(l@));
                assert(words(l@)[1] == z@);
                return is_zero;
            }
            assert(is_uid_line(l@));
            assert(uid_line(lv.skip(j as int)) == Some(l@));
            return false;
        }
        j = j + 1;
    }
    assert(lv.skip(lines.len() as int) =~= Seq::<Seq<char>>::empty());
    false
}

} // verus!
