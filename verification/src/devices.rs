//! The storage devices and key shards of the machine: the device summary
//! shown when choosing a drive, the shard files collected for recovery and
//! the master key that the combined shards give back.
use vstd::prelude::*;
use crate::text::{
    append_chars, chars_of, contains, contains_chars, join, join_chars, lemma_split_char_concat,
    lemma_split_char_len, lines, lines_of, nonempty_pieces, keep_nonempty, pieces, split_char,
    split_chars, split_whitespace, split_whitespace_chars, starts_with, starts_with_chars,
    string_of, sub_vec, trim, trim_chars, copy_chars, occurs_at, occurs_at_chars,
};

verus! {

broadcast use vstd::seq::group_seq_axioms;

// ---------------------------------------------------------------------------
// Device summary
// ---------------------------------------------------------------------------

/// `s` without any trailing `c` (`str::trim_end_matches` on a `char`).
pub open spec fn trim_end_char(s: Seq<char>, c: char) -> Seq<char>
    decreases s.len(),
{
    if s.len() > 0 && s.last() == c {
        trim_end_char(s.drop_last(), c)
    } else {
        s
    }
}

/// An `fdisk -l` line that introduces a disk other than a loop device.
pub open spec fn is_disk_line(line: Seq<char>) -> bool {
    starts_with(line, "Disk /dev/"@) && !contains(line, "/dev/loop"@)
}

/// An `fdisk -l` line that names the model of the disk above it.
pub open spec fn is_model_line(line: Seq<char>) -> bool {
    starts_with(line, "Disk model:"@)
}

/// Whether line `i` of `ls` introduces a disk that the summary lists: a disk
/// line followed by its model line, with a size below a tebibyte unless
/// `include_tib`.
pub open spec fn device_listed(ls: Seq<Seq<char>>, i: int, include_tib: bool) -> bool {
    &&& 0 <= i
    &&& i + 1 < ls.len()
    &&& is_disk_line(ls[i])
    &&& is_model_line(ls[i + 1])
    &&& (include_tib || !contains(split_whitespace(ls[i])[3], "TiB"@))
}

/// The summary line of the disk line `line` with the model line `model_line`.
pub open spec fn device_entry(line: Seq<char>, model_line: Seq<char>) -> Seq<char> {
    let parts = split_whitespace(line);
    "Mount: "@ + trim_end_char(parts[1], ':') + " - Model: "@ + trim(split_char(model_line, ':')[1])
        + " - Size: "@ + parts[2] + " "@ + parts[3] + "\n"@
}

/// The summary lines of the first `k` lines of `ls`.
pub open spec fn device_text(ls: Seq<Seq<char>>, k: int, include_tib: bool) -> Seq<char>
    decreases k,
{
    if k <= 0 {
        Seq::empty()
    } else {
        device_text(ls, k - 1, include_tib) + if device_listed(ls, k - 1, include_tib) {
            device_entry(ls[k - 1], ls[k])
        } else {
            Seq::empty()
        }
    }
}

/// Whether a `,`-separated piece of the summary is kept: at least two bytes
/// of UTF-8, that is two characters or one beyond ASCII.
pub open spec fn wide_piece(p: Seq<char>) -> bool {
    p.len() >= 2 || (p.len() == 1 && p[0] >= '\u{80}')
}

/// The pieces `ps` that `wide_piece` keeps, in order.
pub open spec fn wide_pieces(ps: Seq<Seq<char>>) -> Seq<Seq<char>>
    decreases ps.len(),
{
    if ps.len() == 0 {
        ps
    } else {
        let rest = wide_pieces(ps.drop_last());
        if wide_piece(ps.last()) {
            rest.push(ps.last())
        } else {
            rest
        }
    }
}

/// The summary of the disks that an `fdisk -l` listing shows: a line
/// `Mount: <path> - Model: <model> - Size: <size> <unit>` for each disk line
/// followed by its model line, then cut at commas, pieces shorter than two
/// bytes dropped, and joined by commas again.
pub open spec fn device_summary_text(output: Seq<char>, include_tib: bool) -> Seq<char> {
    let ls = lines(output);
    join(wide_pieces(split_char(device_text(ls, ls.len() as int, include_tib), ',')), ","@)
}

/// Every listed disk line has a path, a size and a unit.
pub open spec fn disk_lines_complete(output: Seq<char>) -> bool {
    let ls = lines(output);
    forall|i: int|
        0 <= i && i + 1 < ls.len() && is_disk_line(#[trigger] ls[i]) && is_model_line(ls[i + 1])
            ==> split_whitespace(ls[i]).len() >= 4
}

/// A text that holds `c` splits into at least two pieces.
proof fn lemma_split_char_at_least_two(s: Seq<char>, c: char, k: int)
    requires
        0 <= k < s.len(),
        s[k] == c,
    ensures
        split_char(s, c).len() >= 2,
{
    let x = s.subrange(0, k);
    let y = s.subrange(k + 1, s.len() as int);
    assert(s =~= x + seq![c] + y);
    lemma_split_char_concat(x, c, y);
    lemma_split_char_len(x, c);
    lemma_split_char_len(y, c);
}

/// `v` without any trailing `c`.
fn trim_end_char_chars(v: &Vec<char>, c: char) -> (r: Vec<char>)
    ensures
        r@ == trim_end_char(v@, c),
{
    let n = v.len();
    let mut j: usize = n;
    assert(v@.subrange(0, n as int) =~= v@);
    while j > 0 && v[j - 1] == c
        invariant
            n == v@.len(),
            j <= n,
            trim_end_char(v@, c) == trim_end_char(v@.subrange(0, j as int), c),
        decreases j,
    {
        proof {
            let t = v@.subrange(0, j as int);
            assert(t.drop_last() =~= v@.subrange(0, j - 1));
        }
        j = j - 1;
    }
    sub_vec(v, 0, j)
}

/// The pieces of `ps` that `wide_piece` keeps.
fn keep_wide(ps: &Vec<Vec<char>>) -> (r: Vec<Vec<char>>)
    ensures
        pieces(r@) == wide_pieces(pieces(ps@)),
{
    let n = ps.len();
    let ghost all = pieces(ps@);
    let mut r: Vec<Vec<char>> = Vec::new();
    let mut i: usize = 0;
    assert(all.take(0) =~= Seq::<Seq<char>>::empty());
    while i < n
        invariant
            n == ps@.len(),
            all == pieces(ps@),
            i <= n,
            pieces(r@) == wide_pieces(all.take(i as int)),
        decreases n - i,
    {
        assert(all.take(i + 1).drop_last() =~= all.take(i as int));
        assert(all.take(i + 1).last() == ps@[i as int]@);
        let len = ps[i].len();
        if len >= 2 || (len == 1 && ps[i][0] >= '\u{80}') {
            let q = copy_chars(&ps[i]);
            let ghost before = pieces(r@);
            r.push(q);
            assert(pieces(r@) =~= before.push(all[i as int]));
        }
        i = i + 1;
    }
    assert(all.take(n as int) =~= all);
    r
}

/// Appends the literal `lit` to `v`.
fn append_text(v: &mut Vec<char>, lit: &str)
    ensures
        final(v)@ == old(v)@ + lit@,
{
    let w = chars_of(lit);
    append_chars(v, &w);
}

/// The summary of the disks that the `fdisk -l` listing `output` shows, as
/// the drive chooser lists them; disks of a tebibyte or more are left out
/// unless `include_tib`.
pub fn device_summary(output: &str, include_tib: bool) -> (r: String)
    requires
        disk_lines_complete(output@),
    ensures
        r@ == device_summary_text(output@, include_tib),
{
    let text = chars_of(output);
    let ls = lines_of(&text);
    let ghost all = pieces(ls@);
    let disk = chars_of("Disk /dev/");
    let loop_dev = chars_of("/dev/loop");
    let model = chars_of("Disk model:");
    let tib = chars_of("TiB");
    let n = ls.len();
    let mut raw: Vec<char> = Vec::new();
    let mut i: usize = 0;
    while i < n
        invariant
            n == ls@.len(),
            all == pieces(ls@),
            all == lines(output@),
            disk_lines_complete(output@),
            disk@ == "Disk /dev/"@,
            loop_dev@ == "/dev/loop"@,
            model@ == "Disk model:"@,
            tib@ == "TiB"@,
            i <= n,
            raw@ == device_text(all, i as int, include_tib),
        decreases n - i,
    {
        let ghost before = raw@;
        if i + 1 < n && starts_with_chars(&ls[i], &disk) && !contains_chars(&ls[i], &loop_dev)
            && starts_with_chars(&ls[i + 1], &model) {
            assert(is_disk_line(all[i as int]) && is_model_line(all[i + 1]));
            let parts = split_whitespace_chars(&ls[i]);
            assert(pieces(parts@) == split_whitespace(all[i as int]));
            assert(parts@.len() >= 4);
            if include_tib || !contains_chars(&parts[3], &tib) {
                assert(device_listed(all, i as int, include_tib));
                let path = trim_end_char_chars(&parts[1], ':');
                let model_parts = split_chars(&ls[i + 1], ':');
                proof {
                    reveal_strlit("Disk model:");
                    assert(all[i + 1][10] == "Disk model:"@[10]);
                    lemma_split_char_at_least_two(all[i + 1], ':', 10);
                }
                let model_name = trim_chars(&model_parts[1]);
                append_text(&mut raw, "Mount: ");
                append_chars(&mut raw, &path);
                append_text(&mut raw, " - Model: ");
                append_chars(&mut raw, &model_name);
                append_text(&mut raw, " - Size: ");
                append_chars(&mut raw, &parts[2]);
                append_text(&mut raw, " ");
                append_chars(&mut raw, &parts[3]);
                append_text(&mut raw, "\n");
                assert(raw@ =~= before + device_entry(all[i as int], all[i + 1]));
            } else {
                assert(!device_listed(all, i as int, include_tib));
                assert(raw@ =~= before + Seq::<char>::empty());
            }
        } else {
            assert(!device_listed(all, i as int, include_tib));
            assert(raw@ =~= before + Seq::<char>::empty());
        }
        i = i + 1;
    }
    let cut = split_chars(&raw, ',');
    let kept = keep_wide(&cut);
    let comma = chars_of(",");
    let joined = join_chars(&kept, &comma);
    string_of(joined.as_slice())
}

// ---------------------------------------------------------------------------
// Key shards
// ---------------------------------------------------------------------------

/// The shard files named in `listing`, the output of `ls $HOME/shards`: its
/// non-empty lines.
pub fn shard_files(listing: &str) -> (r: Vec<String>)
    ensures
        crate::text::views(r@) == nonempty_pieces(split_char(listing@, '\n')),
{
    let text = chars_of(listing);
    let names = keep_nonempty(split_chars(&text, '\n'));
    let n = names.len();
    let mut r: Vec<String> = Vec::new();
    let mut i: usize = 0;
    while i < n
        invariant
            n == names@.len(),
            i <= n,
            crate::text::views(r@) == pieces(names@).take(i as int),
        decreases n - i,
    {
        let s = string_of(names[i].as_slice());
        let ghost before = crate::text::views(r@);
        assert(s@ == pieces(names@)[i as int]);
        r.push(s);
        assert(crate::text::views(r@) =~= before.push(pieces(names@)[i as int]));
        assert(crate::text::views(r@) =~= pieces(names@).take(i + 1));
        i = i + 1;
    }
    assert(pieces(names@).take(n as int) =~= pieces(names@));
    r
}

/// The number of shards that `ssss-combine -t 5` needs to give back the
/// master key.
pub const SHARD_THRESHOLD: u32 = 5;

/// Whether the shard list is complete once `count` shards have been read
/// into it: the threshold of shards is reached, so no more are read.
pub fn shard_list_complete(count: u32) -> (b: bool)
    ensures
        b == (count >= SHARD_THRESHOLD),
{
    count >= SHARD_THRESHOLD
}

/// `s` without every leading repetition of `p` (`str::trim_start_matches`).
pub open spec fn trim_start_str(s: Seq<char>, p: Seq<char>) -> Seq<char>
    decreases s.len(),
{
    if p.len() > 0 && starts_with(s, p) {
        trim_start_str(s.subrange(p.len() as int, s.len() as int), p)
    } else {
        s
    }
}

/// The master key that `ssss-combine` reported in `output`: the text after
/// every leading `Resulting secret:`, trimmed.
pub fn masterkey_from_output(output: &str) -> (r: String)
    ensures
        r@ == trim(trim_start_str(output@, "Resulting secret:"@)),
{
    proof {
        reveal_strlit("Resulting secret:");
    }
    let text = chars_of(output);
    let prefix = chars_of("Resulting secret:");
    let n = text.len();
    let k = prefix.len();
    let mut i: usize = 0;
    assert(text@.subrange(0, n as int) =~= text@);
    while k <= n - i && occurs_at_chars(&text, &prefix, i)
        invariant
            n == text@.len(),
            k == prefix@.len(),
            k > 0,
            prefix@ == "Resulting secret:"@,
            i <= n,
            trim_start_str(output@, prefix@) == trim_start_str(
                text@.subrange(i as int, n as int),
                prefix@,
            ),
            text@ == output@,
        decreases n - i,
    {
        proof {
            let t = text@.subrange(i as int, n as int);
            assert(t.subrange(0, k as int) =~= text@.subrange(i as int, i + k));
            assert(t.subrange(k as int, t.len() as int) =~= text@.subrange(i + k, n as int));
        }
        i = i + k;
    }
    proof {
        let t = text@.subrange(i as int, n as int);
        if starts_with(t, prefix@) {
            assert(t.subrange(0, k as int) =~= text@.subrange(i as int, i + k));
        }
    }
    let rest = sub_vec(&text, i, n);
    let trimmed = trim_chars(&rest);
    string_of(trimmed.as_slice())
}


/// Without a disk of a tebibyte or more among the first `k` lines, the
/// summary lines are the same with and without the larger disks.
proof fn lemma_device_text_without_large(ls: Seq<Seq<char>>, k: int)
    requires
        forall|i: int| 0 <= i < k && #[trigger] device_listed(ls, i, true) ==> !contains(
            split_whitespace(ls[i])[3],
            "TiB"@,
        ),
    ensures
        device_text(ls, k, true) == device_text(ls, k, false),
    decreases k,
{
    if k > 0 {
        lemma_device_text_without_large(ls, k - 1);
        assert(device_listed(ls, k - 1, true) == device_listed(ls, k - 1, false));
    }
}

/// Giving the root password lists the same disks and, besides them, the
/// disks of a tebibyte or more, each in its place in the listing: a disk
/// listed without the password is listed with it, a disk listed only with it
/// has its size in TiB, and when no listed disk is that large both
/// summaries are the same.
pub proof fn lemma_password_adds_only_large_disks(output: Seq<char>)
    ensures
        forall|i: int|
            #[trigger] device_listed(lines(output), i, false) ==> device_listed(lines(output), i, true),
        forall|i: int|
            #[trigger] device_listed(lines(output), i, true) && !device_listed(lines(output), i, false)
                ==> contains(split_whitespace(lines(output)[i])[3], "TiB"@),
        (forall|i: int|
            #[trigger] device_listed(lines(output), i, true) ==> !contains(
                split_whitespace(lines(output)[i])[3],
                "TiB"@,
            )) ==> device_summary_text(output, true) == device_summary_text(output, false),
{
    let ls = lines(output);
    if forall|i: int|
        #[trigger] device_listed(ls, i, true) ==> !contains(split_whitespace(ls[i])[3], "TiB"@) {
        lemma_device_text_without_large(ls, ls.len() as int);
    }
}

/// Which disks the drive chooser lists, whatever their names: a line of
/// the listing is listed exactly when it begins with `Disk /dev/`, is not a
/// loop device, is followed by its `Disk model:` line, and either the root
/// password was given or its size is not in TiB. Each listed disk adds its
/// own summary line, in the listing's order, beginning with `Mount: ` and
/// the disk's path.
pub proof fn lemma_listed_disks(output: Seq<char>, include_tib: bool, i: int)
    requires
        0 <= i,
    ensures
        ({
            let ls = lines(output);
            &&& device_listed(ls, i, include_tib) <==> (i + 1 < ls.len() && starts_with(
                ls[i],
                "Disk /dev/"@,
            ) && !contains(ls[i], "/dev/loop"@) && starts_with(ls[i + 1], "Disk model:"@) && (
            include_tib || !contains(split_whitespace(ls[i])[3], "TiB"@)))
            &&& device_text(ls, i + 1, include_tib) == device_text(ls, i, include_tib) + if device_listed(
                ls,
                i,
                include_tib,
            ) {
                device_entry(ls[i], ls[i + 1])
            } else {
                Seq::<char>::empty()
            }
            &&& starts_with(device_entry(ls[i], ls[i + 1]), "Mount: "@)
            &&& device_entry(ls[i], ls[i + 1]).subrange(
                7,
                7 + trim_end_char(split_whitespace(ls[i])[1], ':').len() as int,
            ) == trim_end_char(split_whitespace(ls[i])[1], ':')
        }),
{
    let ls = lines(output);
    let e = device_entry(ls[i], ls[i + 1]);
    let path = trim_end_char(split_whitespace(ls[i])[1], ':');
    reveal_strlit("Mount: ");
    assert(e.subrange(0, 7) =~= "Mount: "@);
    assert(e.subrange(7, 7 + path.len() as int) =~= path);
}

/// Whether every listed disk line of the `fdisk -l` listing `output` has a
/// path, a size and a unit, as `device_summary` needs.
pub fn check_disk_lines(output: &str) -> (b: bool)
    ensures
        b == disk_lines_complete(output@),
{
    let text = chars_of(output);
    let ls = lines_of(&text);
    let ghost all = pieces(ls@);
    let disk = chars_of("Disk /dev/");
    let loop_dev = chars_of("/dev/loop");
    let model = chars_of("Disk model:");
    let n = ls.len();
    let mut i: usize = 0;
    while i < n
        invariant
            n == ls@.len(),
            all == pieces(ls@),
            all == lines(output@),
            disk@ == "Disk /dev/"@,
            loop_dev@ == "/dev/loop"@,
            model@ == "Disk model:"@,
            i <= n,
            forall|j: int|
                0 <= j < i && j + 1 < all.len() && is_disk_line(#[trigger] all[j]) && is_model_line(
                    all[j + 1],
                ) ==> split_whitespace(all[j]).len() >= 4,
        decreases n - i,
    {
        if i + 1 < n && starts_with_chars(&ls[i], &disk) && !contains_chars(&ls[i], &loop_dev)
            && starts_with_chars(&ls[i + 1], &model) {
            let parts = split_whitespace_chars(&ls[i]);
            if parts.len() < 4 {
                assert(is_disk_line(all[i as int]) && is_model_line(all[i + 1]));
                return false;
            }
        }
        i = i + 1;
    }
    true
}

/// The line of a shard file that goes into the shard list: its first line
/// without trailing whitespace.
pub fn shard_list_line(first_line: &str) -> (r: String)
    ensures
        r@ == crate::text::trim_end(first_line@),
{
    crate::text::trim_end_str(first_line)
}

/// The shard list written for `ssss-combine`: each line without trailing
/// whitespace and followed by a line ending.
pub open spec fn shard_list(lines: Seq<Seq<char>>) -> Seq<char>
    decreases lines.len(),
{
    if lines.len() == 0 {
        Seq::empty()
    } else {
        shard_list(lines.drop_last()) + crate::text::trim_end(lines.last()) + "\n"@
    }
}

/// The shard list made of the first lines of the shard files read, in the
/// order they were read: no more than the threshold of shards is taken.
pub fn shard_list_text(first_lines: &Vec<String>) -> (r: String)
    ensures
        r@ == shard_list(
            crate::text::views(first_lines@).take(
                if first_lines@.len() < SHARD_THRESHOLD {
                    first_lines@.len() as int
                } else {
                    SHARD_THRESHOLD as int
                },
            ),
        ),
{
    let n = first_lines.len();
    let mut r = String::new();
    let mut i: usize = 0;
    while i < n && !shard_list_complete(i as u32)
        invariant
            n == first_lines@.len(),
            i <= n,
            i <= SHARD_THRESHOLD,
            r@ == shard_list(crate::text::views(first_lines@).take(i as int)),
        decreases n - i,
    {
        let line = shard_list_line(first_lines[i].as_str());
        r.append(line.as_str());
        r.append("\n");
        proof {
            let t = crate::text::views(first_lines@).take(i + 1);
            assert(t.drop_last() =~= crate::text::views(first_lines@).take(i as int));
            assert(t.last() == first_lines@[i as int]@);
        }
        i = i + 1;
    }
    r
}

} // verus!
