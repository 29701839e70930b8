//! Helpers of the wallet: reading the output of system commands (device
//! listings, `fdisk`, the optical drive), the home directory and user, the
//! decay-time files and descriptor checksums.
use vstd::prelude::*;
use crate::error::Error;
use crate::text::{
    chars_of, keep_nonempty, nonempty_pieces, copy_chars, join, join_chars, lines, lines_of, member, occurs_at,
    occurs_at_chars, pieces, split_pair, split_pair_chars, string_of, sub_vec, trim,
    trim_char, trim_char_chars, trim_each, split_char, split_chars, trim_chars,
    split_whitespace, split_whitespace_chars, parse_i64, parse_i64_chars, parse_u64,
    parse_u64_chars, is_ws, lemma_split_pair_join, lemma_split_pair_single, lemma_join_prepend,
    lemma_join_append, lemma_trim_unchanged, lemma_trim_char_quoted,
};

verus! {

broadcast use vstd::seq::group_seq_axioms;

// ---------------------------------------------------------------------------
// Word characters, as the `regex` crate's `\w` matches them
// ---------------------------------------------------------------------------

/// Whether `c` is a Unicode word character (UTS#18 Annex C), the class `\w`.
pub uninterp spec fn unicode_word_char(c: char) -> bool;

/// The ASCII word characters `[_0-9a-zA-Z]`.
pub open spec fn ascii_word_char(c: char) -> bool {
    ||| ('0' <= c && c <= '9')
    ||| ('a' <= c && c <= 'z')
    ||| ('A' <= c && c <= 'Z')
    ||| c == '_'
}

/// Calls `regex_syntax::is_word_character`: whether `c` is a Unicode word
/// character (Alphabetic, Join_Control, Decimal_Number, Mark or
/// Connector_Punctuation). Among ASCII characters these are exactly
/// `[_0-9a-zA-Z]`; beyond ASCII the result is only named.
#[verifier::external_body]
fn is_word_char(c: char) -> (b: bool)
    ensures
        b == unicode_word_char(c),
        c < '\u{80}' ==> (b == ascii_word_char(c)),
{
    regex_syntax::is_word_character(c)
}

// ---------------------------------------------------------------------------
// fdisk listings
// ---------------------------------------------------------------------------

/// Whether `c` is matched by `\w`: among ASCII characters exactly
/// `[_0-9a-zA-Z]`, beyond ASCII a Unicode word character.
pub open spec fn word_char(c: char) -> bool {
    if (c as int) < 0x80 {
        ascii_word_char(c)
    } else {
        unicode_word_char(c)
    }
}

/// The number of word characters in `s` starting at `i`.
pub open spec fn word_run(s: Seq<char>, i: int) -> nat
    decreases s.len() - i,
{
    if 0 <= i < s.len() && word_char(s[i]) {
        1 + word_run(s, i + 1)
    } else {
        0
    }
}

/// Whether the pattern `Disk (/dev/\w+):` matches `s` starting at `p`.
pub open spec fn disk_match_at(s: Seq<char>, p: int) -> bool {
    let run = word_run(s, p + 10);
    &&& occurs_at(s, "Disk /dev/"@, p)
    &&& run >= 1
    &&& p + 10 + run < s.len()
    &&& s[p + 10 + run] == ':'
}

/// The leftmost position at or after `p` where the disk pattern matches.
pub open spec fn first_disk_match(s: Seq<char>, p: int) -> Option<int>
    decreases s.len() - p,
{
    if p < 0 || p >= s.len() {
        None
    } else if disk_match_at(s, p) {
        Some(p)
    } else {
        first_disk_match(s, p + 1)
    }
}

/// The device path that `Disk (/dev/\w+):` captures in `line`, if it matches.
pub open spec fn disk_capture(line: Seq<char>) -> Option<Seq<char>> {
    match first_disk_match(line, 0) {
        Some(p) => Some(line.subrange(p + 5, p + 10 + word_run(line, p + 10))),
        None => None,
    }
}

/// The devices that an `fdisk -l` listing names, in order.
pub open spec fn fdisk_devices(output: Seq<char>) -> Seq<Seq<char>> {
    lines(output).filter_map(|l: Seq<char>| disk_capture(l))
}

/// The number of word characters of `v` starting at `i`.
fn word_run_len(v: &Vec<char>, i: usize) -> (k: usize)
    requires
        i <= v@.len(),
    ensures
        k == word_run(v@, i as int),
        i + k <= v@.len(),
{
    let n = v.len();
    let mut j: usize = i;
    let mut more = true;
    while more && j < n
        invariant
            n == v@.len(),
            i <= j <= n,
            word_run(v@, i as int) == (j - i) + word_run(v@, j as int),
            !more ==> j < n && !word_char(v@[j as int]),
        decreases n - j + (if more { 1int } else { 0int }),
    {
        let c = v[j];
        let w = is_word_char(c);
        assert(w == word_char(c)) by {
            assert(((c as int) < 0x80) == (c < '\u{80}'));
        }
        if w {
            j = j + 1;
        } else {
            more = false;
        }
    }
    j - i
}

/// The device path captured in `line`, if the disk pattern matches it.
fn capture_disk(line: &Vec<char>, prefix: &Vec<char>) -> (r: Option<Vec<char>>)
    requires
        prefix@ == "Disk /dev/"@,
    ensures
        match r {
            Some(d) => disk_capture(line@) == Some(d@),
            None => disk_capture(line@) is None,
        },
{
    proof {
        reveal_strlit("Disk /dev/");
    }
    let n = line.len();
    let mut p: usize = 0;
    while p < n
        invariant
            n == line@.len(),
            prefix@.len() == 10,
            prefix@ == "Disk /dev/"@,
            first_disk_match(line@, 0) == first_disk_match(line@, p as int),
        decreases n - p,
    {
        if occurs_at_chars(line, prefix, p) {
            let k = word_run_len(line, p + 10);
            if k >= 1 && p + 10 + k < n && line[p + 10 + k] == ':' {
                assert(disk_match_at(line@, p as int));
                let d = sub_vec(line, p + 5, p + 10 + k);
                return Some(d);
            }
        }
        assert(!disk_match_at(line@, p as int));
        p = p + 1;
    }
    None
}

/// The devices that `fdisk -l` lists in `output`, joined by `", "`: the paths
/// captured by `Disk (/dev/\w+):` on each line, in order.
pub fn parse_fdisk_result(output: &str) -> (r: String)
    ensures
        r@ == join(fdisk_devices(output@), ", "@),
{
    let devices = fdisk_device_list(output);
    let sep = chars_of(", ");
    let joined = join_chars(&devices, &sep);
    string_of(joined.as_slice())
}

/// The devices that `fdisk -l` lists in `output`, in order.
fn fdisk_device_list(output: &str) -> (r: Vec<Vec<char>>)
    ensures
        pieces(r@) == fdisk_devices(output@),
{
    let text = chars_of(output);
    let ls = lines_of(&text);
    let prefix = chars_of("Disk /dev/");
    let ghost all = pieces(ls@);
    let ghost f = |l: Seq<char>| disk_capture(l);
    let n = ls.len();
    let mut found: Vec<Vec<char>> = Vec::new();
    let mut i: usize = 0;
    assert(all.take(0) =~= Seq::<Seq<char>>::empty());
    while i < n
        invariant
            n == ls@.len(),
            all == pieces(ls@),
            all == lines(text@),
            text@ == output@,
            prefix@ == "Disk /dev/"@,
            f == (|l: Seq<char>| disk_capture(l)),
            i <= n,
            pieces(found@) == all.take(i as int).filter_map(f),
        decreases n - i,
    {
        assert(all.take(i + 1).drop_last() =~= all.take(i as int));
        assert(all.take(i + 1).last() == ls@[i as int]@);
        let ghost before = pieces(found@);
        match capture_disk(&ls[i], &prefix) {
            Some(d) => {
                let ghost dv = d@;
                found.push(d);
                assert(pieces(found@) =~= before + seq![dv]);
            },
            None => {},
        }
        i = i + 1;
    }
    assert(all.take(n as int) =~= all);
    found
}

// ---------------------------------------------------------------------------
// New devices
// ---------------------------------------------------------------------------

/// The devices of the current listing, as `find_new_device` reads them: the
/// pieces between `", "`, trimmed, empty names left out.
pub open spec fn current_devices(fdisk_output: Seq<char>) -> Seq<Seq<char>> {
    nonempty_pieces(
        split_pair(join(fdisk_devices(fdisk_output), ", "@), ',', ' ').map_values(
            |p: Seq<char>| trim(p),
        ),
    )
}

/// The non-empty pieces of `ps` are non-empty, and when every piece is
/// non-empty they are all of `ps`.
proof fn lemma_nonempty_pieces(ps: Seq<Seq<char>>)
    ensures
        forall|i: int| 0 <= i < nonempty_pieces(ps).len() ==> #[trigger] nonempty_pieces(ps)[i].len() > 0,
        (forall|i: int| 0 <= i < ps.len() ==> #[trigger] ps[i].len() > 0) ==> nonempty_pieces(ps) == ps,
    decreases ps.len(),
{
    if ps.len() > 0 {
        lemma_nonempty_pieces(ps.drop_last());
        let rest = nonempty_pieces(ps.drop_last());
        if ps.last().len() > 0 {
            assert forall|i: int| 0 <= i < rest.push(ps.last()).len() implies #[trigger] rest.push(
                ps.last(),
            )[i].len() > 0 by {
                if i < rest.len() {
                    assert(rest.push(ps.last())[i] == rest[i]);
                }
            }
        }
        if forall|i: int| 0 <= i < ps.len() ==> #[trigger] ps[i].len() > 0 {
            assert forall|i: int| 0 <= i < ps.drop_last().len() implies #[trigger] ps.drop_last()[i].len() > 0 by {
                assert(ps.drop_last()[i] == ps[i]);
            }
            assert(ps.last() == ps[ps.len() - 1]);
            assert(ps.drop_last().push(ps.last()) =~= ps);
        }
    }
}

/// The devices of a baseline, as `find_new_device` reads them: the pieces
/// between `", "`, trimmed, without surrounding double quotes.
pub open spec fn baseline_devices(baseline: Seq<char>) -> Seq<Seq<char>> {
    split_pair(baseline, ',', ' ').map_values(|p: Seq<char>| trim_char(trim(p), '"'))
}

/// The devices listed now that the baseline does not list.
pub open spec fn new_devices(fdisk_output: Seq<char>, baseline: Seq<char>) -> Set<Seq<char>> {
    current_devices(fdisk_output).to_set().difference(baseline_devices(baseline).to_set())
}

/// Finds the one device that an `fdisk -l` listing (`fdisk_output`) names and
/// the `baseline` list does not: `Ok` with it when there is exactly one,
/// otherwise an error that says whether there was none or more than one. A
/// device found is never an empty name.
pub fn find_new_device(fdisk_output: &str, baseline: &str) -> (r: Result<String, String>)
    ensures
        match r {
            Ok(d) => new_devices(fdisk_output@, baseline@) == set![d@] && d@.len() > 0,
            Err(e) => {
                ||| (new_devices(fdisk_output@, baseline@).len() == 0 && e@
                    == "ERROR No device found"@)
                ||| (new_devices(fdisk_output@, baseline@).len() >= 2 && e@
                    == "ERROR More than one device found"@)
            },
        },
{
    let devices = fdisk_device_list(fdisk_output);
    let sep = chars_of(", ");
    let joined = join_chars(&devices, &sep);
    let current = keep_nonempty(trim_each(&split_pair_chars(&joined, ',', ' ')));
    let base_text = chars_of(baseline);
    let base_trimmed = trim_each(&split_pair_chars(&base_text, ',', ' '));
    let base = unquote_each(&base_trimmed);
    let ghost cur_set = pieces(current@).to_set();
    let ghost base_set = pieces(base@).to_set();
    assert(pieces(current@) == current_devices(fdisk_output@));
    assert(pieces(base@) =~= baseline_devices(baseline@));
    let n = current.len();
    let mut fresh: Vec<Vec<char>> = Vec::new();
    let mut i: usize = 0;
    assert(pieces(current@).take(0).to_set() =~= Set::<Seq<char>>::empty());
    assert(pieces(fresh@).to_set() =~= Set::<Seq<char>>::empty());
    while i < n
        invariant
            n == current@.len(),
            i <= n,
            base_set == pieces(base@).to_set(),
            pieces(fresh@).to_set() == pieces(current@).take(i as int).to_set().difference(
                base_set,
            ),
            pieces(fresh@).no_duplicates(),
        decreases n - i,
    {
        let ghost x = current@[i as int]@;
        proof {
            assert(pieces(current@).take(i + 1) =~= pieces(current@).take(i as int).push(x));
            pieces(current@).take(i as int).lemma_push_to_set_commute(x);
        }
        let in_base = member(&base, &current[i]);
        let seen = member(&fresh, &current[i]);
        if !in_base && !seen {
            let c = copy_chars(&current[i]);
            let ghost before = pieces(fresh@);
            fresh.push(c);
            proof {
                assert(pieces(fresh@) =~= before.push(x));
                before.lemma_push_to_set_commute(x);
                assert(pieces(fresh@).to_set() =~= pieces(current@).take(i + 1).to_set().difference(
                    base_set,
                ));
            }
        } else {
            proof {
                if seen {
                    assert(pieces(fresh@).to_set().contains(x));
                }
                assert(pieces(fresh@).to_set() =~= pieces(current@).take(i + 1).to_set().difference(
                    base_set,
                ));
            }
        }
        i = i + 1;
    }
    proof {
        assert(pieces(current@).take(n as int) =~= pieces(current@));
        pieces(fresh@).unique_seq_to_set();
    }
    let k = fresh.len();
    if k == 0 {
        Err(String::from_str("ERROR No device found"))
    } else if k == 1 {
        assert(pieces(fresh@) =~= seq![fresh@[0]@]);
        proof {
            let x = fresh@[0]@;
            assert forall|a: Seq<char>| seq![x].to_set().contains(a) <==> a == x by {
                if a == x {
                    assert(seq![x][0] == a);
                }
            }
            assert(seq![x].to_set() =~= set![x]);
            assert(seq![x][0] == x);
            assert(pieces(fresh@).to_set().contains(x));
            assert(pieces(current@).to_set().contains(x));
            let j = choose|j: int| 0 <= j < pieces(current@).len() && pieces(current@)[j] == x;
            lemma_nonempty_pieces(
                split_pair(join(fdisk_devices(fdisk_output@), ", "@), ',', ' ').map_values(
                    |p: Seq<char>| trim(p),
                ),
            );
            assert(pieces(current@)[j].len() > 0);
        }
        Ok(string_of(fresh[0].as_slice()))
    } else {
        Err(String::from_str("ERROR More than one device found"))
    }
}

/// Each member of `ps` without surrounding double quotes.
fn unquote_each(ps: &Vec<Vec<char>>) -> (r: Vec<Vec<char>>)
    ensures
        pieces(r@) == pieces(ps@).map_values(|p: Seq<char>| trim_char(p, '"')),
{
    let n = ps.len();
    let mut r: Vec<Vec<char>> = Vec::new();
    let mut i: usize = 0;
    while i < n
        invariant
            n == ps@.len(),
            i <= n,
            pieces(r@) == pieces(ps@).take(i as int).map_values(|p: Seq<char>| trim_char(p, '"')),
        decreases n - i,
    {
        let t = trim_char_chars(&ps[i], '"');
        let ghost before = pieces(r@);
        r.push(t);
        assert(pieces(r@) =~= before.push(trim_char(ps@[i as int]@, '"')));
        i = i + 1;
        assert(pieces(r@) =~= pieces(ps@).take(i as int).map_values(
            |p: Seq<char>| trim_char(p, '"'),
        ));
    }
    assert(pieces(ps@).take(n as int) =~= pieces(ps@));
    r
}


// ---------------------------------------------------------------------------
// Mounted devices, the optical drive, home and user
// ---------------------------------------------------------------------------

/// Whether `i` is the first line of `ls` that is exactly 36 characters long.
pub open spec fn first_uuid_line(ls: Seq<Seq<char>>, i: int) -> bool {
    &&& 0 <= i < ls.len()
    &&& ls[i].len() == 36
    &&& forall|j: int| 0 <= j < i ==> ls[j].len() != 36
}

/// Finds the internal drive's UUID in `listing`, the output of `ls
/// /media/$USER`: the first line that is exactly 36 characters long, trimmed;
/// `UUIDNotFound` when no line is.
pub fn get_uuid(listing: &str) -> (r: Result<String, Error>)
    ensures
        r matches Ok(u) ==> exists|i: int|
            first_uuid_line(split_char(listing@, '\n'), i) && u@ == trim(
                #[trigger] split_char(listing@, '\n')[i],
            ),
        r matches Err(e) ==> e is UUIDNotFound && forall|i: int|
            0 <= i < split_char(listing@, '\n').len() ==> #[trigger] split_char(
                listing@,
                '\n',
            )[i].len() != 36,
{
    let text = chars_of(listing);
    let devices = split_chars(&text, '\n');
    let ghost ls = split_char(listing@, '\n');
    let n = devices.len();
    let mut i: usize = 0;
    while i < n
        invariant
            n == devices@.len(),
            ls == split_char(listing@, '\n'),
            pieces(devices@) == ls,
            i <= n,
            forall|j: int| 0 <= j < i ==> ls[j].len() != 36,
        decreases n - i,
    {
        assert(ls[i as int] == devices@[i as int]@);
        if devices[i].len() == 36 {
            let t = trim_chars(&devices[i]);
            let u = string_of(t.as_slice());
            assert(first_uuid_line(ls, i as int) && u@ == trim(ls[i as int]));
            return Ok(u);
        }
        i = i + 1;
    }
    Err(Error::UUIDNotFound())
}

/// Picks the optical drive from `listing`, the output of `ls /dev/sr?`: the
/// one whitespace-separated path when there is exactly one, otherwise an
/// error that says whether there was none or several.
pub fn get_cd_path(listing: &str) -> (r: Result<String, String>)
    ensures
        ({
            let devices = split_whitespace(listing@);
            match r {
                Ok(p) => devices.len() == 1 && p@ == devices[0],
                Err(e) => {
                    ||| (devices.len() == 0 && e@ == "Error No valid path found"@)
                    ||| (devices.len() >= 2 && e@ == "Error multiple paths found"@)
                },
            }
        }),
{
    let text = chars_of(listing);
    let devices = split_whitespace_chars(&text);
    if devices.len() == 0 {
        Err(String::from_str("Error No valid path found"))
    } else if devices.len() == 1 {
        assert(pieces(devices@)[0] == devices@[0]@);
        Ok(string_of(devices[0].as_slice()))
    } else {
        Err(String::from_str("Error multiple paths found"))
    }
}

/// Calls `home::home_dir` and turns the path into a `String`: `None` when no
/// home directory is known or its path is not valid Unicode. The home
/// directory comes from the environment, so nothing is stated of it.
#[verifier::external_body]
fn home_dir_string() -> (r: Option<String>) {
    match home::home_dir() {
        Some(path) => path.to_str().map(|s| s.to_string()),
        None => None,
    }
}

/// The path of the current user's home directory; `HomeNotFound` when it is
/// unknown or not valid Unicode.
pub fn get_home() -> (r: Result<String, Error>)
    ensures
        r matches Err(e) ==> e is HomeNotFound,
{
    match home_dir_string() {
        Some(home) => Ok(home),
        None => Err(Error::HomeNotFound()),
    }
}

/// The user named by a home path: its third `/`-separated component, as in
/// `/home/<user>`; `None` when the path has fewer than three components.
pub fn user_of_home(home: &str) -> (r: Option<String>)
    ensures
        ({
            let parts = split_char(home@, '/');
            match r {
                Some(u) => parts.len() >= 3 && u@ == parts[2],
                None => parts.len() < 3,
            }
        }),
{
    let text = chars_of(home);
    let parts = split_chars(&text, '/');
    if parts.len() >= 3 {
        assert(pieces(parts@)[2] == parts@[2]@);
        Some(string_of(parts[2].as_slice()))
    } else {
        None
    }
}

/// The name of the current user, read from the home directory's path
/// (`/home/<user>`); `HomeNotFound` when the home directory is unknown or its
/// path has fewer than three components.
pub fn get_user() -> (r: Result<String, Error>)
    ensures
        r matches Err(e) ==> e is HomeNotFound,
        r matches Ok(u) ==> !u@.contains('/'),
{
    let home = get_home()?;
    match user_of_home(home.as_str()) {
        Some(u) => {
            proof {
                crate::text::lemma_split_char_no_sep(home@, '/', 2);
            }
            Ok(u)
        },
        None => Err(Error::HomeNotFound()),
    }
}

// ---------------------------------------------------------------------------
// Decay times and descriptor checksums
// ---------------------------------------------------------------------------

/// The decay time written when the start time cannot be read.
pub const DEFAULT_DECAY_TIMESTAMP: u64 = 1676511266;

/// The path of the decay-time file `file`.
pub fn decay_file_path(file: &str) -> (r: String)
    ensures
        r@ == "/mnt/ramdisk/sensitive/decay/"@ + file@,
{
    let mut r = String::from_str("/mnt/ramdisk/sensitive/decay/");
    r.append(file);
    r
}

/// The decay time held in a decay file whose text is `contents` (`None` when
/// the file is missing or unreadable), as a signed integer; 0 when there is
/// none or it does not parse.
pub fn retrieve_decay_time_integer(contents: Option<String>) -> (t: i64)
    ensures
        t == match contents {
            Some(c) => match parse_i64(trim(c@)) {
                Some(v) => v,
                None => 0,
            },
            None => 0,
        },
{
    match contents {
        Some(c) => {
            let text = chars_of(c.as_str());
            let trimmed = trim_chars(&text);
            match parse_i64_chars(&trimmed) {
                Some(v) => v,
                None => 0,
            }
        },
        None => 0,
    }
}

/// The decay timestamp held in a decay file whose text is `contents` (`None`
/// when the file is missing or unreadable); `DEFAULT_DECAY_TIMESTAMP` when
/// there is none or it does not parse.
pub fn retrieve_decay_time(contents: Option<String>) -> (t: u64)
    ensures
        t == match contents {
            Some(c) => match parse_u64(trim(c@)) {
                Some(v) => v,
                None => DEFAULT_DECAY_TIMESTAMP as int,
            },
            None => DEFAULT_DECAY_TIMESTAMP as int,
        },
{
    match contents {
        Some(c) => {
            let text = chars_of(c.as_str());
            let trimmed = trim_chars(&text);
            match parse_u64_chars(&trimmed) {
                Some(v) => v,
                None => DEFAULT_DECAY_TIMESTAMP,
            }
        },
        None => DEFAULT_DECAY_TIMESTAMP,
    }
}

/// The descriptor with its checksum appended after `#`, given the node's
/// answer to `getdescriptorinfo`; when the node could not answer, the text of
/// its error takes the descriptor's place.
pub fn get_descriptor_checksum(descriptor: &str, checksum: Result<String, String>) -> (r: String)
    ensures
        r@ == match checksum {
            Ok(c) => descriptor@ + "#"@ + c@,
            Err(e) => e@,
        },
{
    match checksum {
        Ok(c) => {
            let mut r = String::from_str(descriptor);
            r.append("#");
            r.append(c.as_str());
            r
        },
        Err(e) => e,
    }
}


// ---------------------------------------------------------------------------
// Baselines of the device list
// ---------------------------------------------------------------------------

/// Whether `{:?}` prints each character of `s` as itself: printable ASCII
/// other than the quotes and the backslash.
pub open spec fn debug_plain(s: Seq<char>) -> bool {
    forall|i: int|
        0 <= i < s.len() ==> (' ' <= #[trigger] s[i] && s[i] <= '~' && s[i] != '"' && s[i] != '\\'
            && s[i] != '\'')
}

/// The text that `{:?}` prints for the string `s`.
pub uninterp spec fn debug_text(s: Seq<char>) -> Seq<char>;

/// Formats `s` with `{:?}` (`<str as Debug>::fmt`): `s` in double quotes, its
/// special characters escaped. Characters of printable ASCII other than the
/// quotes and the backslash are printed as themselves; the escapes of the
/// others are only named.
#[verifier::external_body]
fn debug_string(s: &str) -> (r: String)
    ensures
        r@ == debug_text(s@),
        debug_plain(s@) ==> r@ == "\""@ + s@ + "\""@,
{
    format!("{:?}", s)
}

/// The baseline of the device list taken before a new device is inserted:
/// the devices of the `fdisk -l` listing `fdisk_output`, joined by `", "`,
/// printed with `{:?}`.
pub fn get_baseline(fdisk_output: &str) -> (r: String)
    ensures
        r@ == debug_text(join(fdisk_devices(fdisk_output@), ", "@)),
        debug_plain(join(fdisk_devices(fdisk_output@), ", "@)) ==> r@ == "\""@ + join(
            fdisk_devices(fdisk_output@),
            ", "@,
        ) + "\""@,
{
    let listed = parse_fdisk_result(fdisk_output);
    debug_string(listed.as_str())
}


/// A device name that `{:?}` prints as itself and that the list's
/// separators cannot cut: printable ASCII other than the space, the comma,
/// the quotes and the backslash.
pub open spec fn plain_device(d: Seq<char>) -> bool {
    &&& d.len() > 0
    &&& forall|i: int|
        0 <= i < d.len() ==> ('!' <= #[trigger] d[i] && d[i] <= '~' && d[i] != ',' && d[i] != '"'
            && d[i] != '\\' && d[i] != '\'')
}

/// A join of plain device names by `", "` is printed by `{:?}` as itself.
proof fn lemma_join_debug_plain(ds: Seq<Seq<char>>)
    requires
        forall|i: int| 0 <= i < ds.len() ==> plain_device(#[trigger] ds[i]),
    ensures
        debug_plain(join(ds, ", "@)),
    decreases ds.len(),
{
    reveal_strlit(", ");
    if ds.len() == 1 {
        assert(plain_device(ds[0]));
    } else if ds.len() >= 2 {
        let d1 = ds.drop_last();
        assert forall|i: int| 0 <= i < d1.len() implies plain_device(#[trigger] d1[i]) by {
            assert(d1[i] == ds[i]);
        }
        lemma_join_debug_plain(d1);
        let last = ds.last();
        assert(plain_device(ds[ds.len() - 1]));
        let j = join(ds, ", "@);
        let j1 = join(d1, ", "@);
        assert(j == j1 + ", "@ + last);
        assert forall|i: int| 0 <= i < j.len() implies (' ' <= #[trigger] j[i] && j[i] <= '~'
            && j[i] != '"' && j[i] != '\\' && j[i] != '\'') by {
            if i < j1.len() {
                assert(j[i] == j1[i]);
            } else if i < j1.len() + 2 {
                assert(j[i] == ", "@[i - j1.len()]);
            } else {
                assert(j[i] == last[i - j1.len() - 2]);
            }
        }
    }
}

/// Whether every device that the `fdisk -l` listing `output` names is a
/// plain name.
pub open spec fn plain_listing(output: Seq<char>) -> bool {
    forall|i: int| 0 <= i < fdisk_devices(output).len() ==> plain_device(#[trigger] fdisk_devices(output)[i])
}

/// The baseline that `get_baseline` prints for a listing of plain names:
/// the names joined by `", "`, in double quotes.
pub open spec fn quoted_devices(output: Seq<char>) -> Seq<char> {
    "\""@ + join(fdisk_devices(output), ", "@) + "\""@
}

/// A listing that names plain devices is read back as exactly its devices.
proof fn lemma_current_of_plain(output: Seq<char>)
    requires
        plain_listing(output),
    ensures
        current_devices(output) == fdisk_devices(output),
{
    reveal_strlit(", ");
    let ds = fdisk_devices(output);
    let trimmed = split_pair(join(ds, ", "@), ',', ' ').map_values(|p: Seq<char>| trim(p));
    if ds.len() == 0 {
        let j = join(ds, ", "@);
        assert(j =~= Seq::<char>::empty());
        assert(split_pair(j, ',', ' ') =~= seq![Seq::<char>::empty()]);
        assert(trimmed =~= seq![Seq::<char>::empty()]);
        assert(trimmed.drop_last() =~= Seq::<Seq<char>>::empty());
        assert(nonempty_pieces(trimmed.drop_last()) =~= Seq::<Seq<char>>::empty());
        assert(current_devices(output) =~= ds);
    } else {
        assert(", "@ =~= seq![',', ' ']);
        assert forall|i: int| 0 <= i < ds.len() implies !(#[trigger] ds[i]).contains(',') by {
            assert(plain_device(ds[i]));
            if ds[i].contains(',') {
                let k = choose|k: int| 0 <= k < ds[i].len() && ds[i][k] == ',';
            }
        }
        lemma_split_pair_join(ds, ',', ' ');
        assert forall|i: int| 0 <= i < ds.len() implies trim(#[trigger] ds[i]) == ds[i] by {
            assert(plain_device(ds[i]));
            assert(ds[i].last() == ds[i][ds[i].len() - 1]);
            lemma_trim_unchanged(ds[i]);
        }
        assert(trimmed =~= ds);
        assert forall|i: int| 0 <= i < ds.len() implies #[trigger] ds[i].len() > 0 by {
            assert(plain_device(ds[i]));
        }
        lemma_nonempty_pieces(ds);
    }
}

/// The baseline printed for a listing of plain devices is read back as
/// exactly those devices; an empty baseline as one empty name.
proof fn lemma_baseline_of_plain(output: Seq<char>)
    requires
        plain_listing(output),
    ensures
        baseline_devices(quoted_devices(output)) == if fdisk_devices(output).len() == 0 {
            seq![Seq::<char>::empty()]
        } else {
            fdisk_devices(output)
        },
{
    reveal_strlit(", ");
    reveal_strlit("\"");
    let ds = fdisk_devices(output);
    let sep = ", "@;
    assert(sep =~= seq![',', ' ']);
    let j = join(ds, sep);
    let q = "\""@;
    assert(q =~= seq!['"']);
    let quoted = q + j + q;
    assert(quoted == quoted_devices(output));
    let baseline = baseline_devices(quoted);
    if ds.len() == 0 {
        assert(j =~= Seq::<char>::empty());
        assert(quoted =~= seq!['"', '"']);
        assert(!quoted.contains(',')) by {
            if quoted.contains(',') {
                let k = choose|k: int| 0 <= k < quoted.len() && quoted[k] == ',';
            }
        }
        lemma_split_pair_single(quoted, ',', ' ');
        assert(trim(quoted) == quoted);
        assert(trim_char(quoted, '"') == trim_char(quoted.drop_first(), '"'));
        assert(quoted.drop_first().drop_first() =~= Seq::<char>::empty());
        assert(trim_char(quoted.drop_first(), '"') == trim_char(quoted.drop_first().drop_first(), '"'));
        assert(baseline =~= seq![Seq::<char>::empty()]);
    } else {
        lemma_join_prepend(ds, sep, q);
        let u1 = ds.update(0, q + ds[0]);
        lemma_join_append(u1, sep, q);
        let u2 = u1.update(u1.len() - 1, u1.last() + q);
        assert(quoted == join(u2, sep));
        let n = ds.len();
        assert forall|i: int| 0 <= i < n implies #[trigger] u2[i] == (if i == 0 {
            q
        } else {
            Seq::<char>::empty()
        }) + ds[i] + (if i == n - 1 {
            q
        } else {
            Seq::<char>::empty()
        }) by {
            if i == 0 && i == n - 1 {
                assert(u2[i] =~= q + ds[i] + q);
            } else if i == 0 {
                assert(u2[i] =~= q + ds[i] + Seq::<char>::empty());
            } else if i == n - 1 {
                assert(u2[i] =~= Seq::<char>::empty() + ds[i] + q);
            } else {
                assert(u2[i] =~= Seq::<char>::empty() + ds[i] + Seq::<char>::empty());
            }
        }
        assert forall|i: int| 0 <= i < u2.len() implies !(#[trigger] u2[i]).contains(',') by {
            assert(plain_device(ds[i]));
            let f: Seq<char> = if i == 0 {
                q
            } else {
                Seq::<char>::empty()
            };
            let k: Seq<char> = if i == n - 1 {
                q
            } else {
                Seq::<char>::empty()
            };
            if u2[i].contains(',') {
                let m = choose|m: int| 0 <= m < u2[i].len() && u2[i][m] == ',';
                assert(u2[i] == f + ds[i] + k);
                if m < f.len() {
                    assert(u2[i][m] == f[m]);
                } else if m < f.len() + ds[i].len() {
                    assert(u2[i][m] == ds[i][m - f.len()]);
                } else {
                    assert(u2[i][m] == k[m - f.len() - ds[i].len()]);
                }
            }
        }
        lemma_split_pair_join(u2, ',', ' ');
        assert forall|i: int| 0 <= i < n implies trim_char(trim(#[trigger] u2[i]), '"') == ds[i] by {
            assert(plain_device(ds[i]));
            let d = ds[i];
            let p = u2[i];
            assert(d[0] != '"' && d.last() == d[d.len() - 1] && d.last() != '"');
            assert(!is_ws(d[0]) && !is_ws(d.last()));
            assert(p.len() > 0);
            assert(p[0] == if i == 0 {
                '"'
            } else {
                d[0]
            });
            assert(p.last() == if i == n - 1 {
                '"'
            } else {
                d.last()
            });
            lemma_trim_unchanged(p);
            lemma_trim_char_quoted(d, '"', i == 0, i == n - 1);
            if i == 0 {
                assert(q =~= seq!['"']);
            }
        }
        assert(baseline =~= ds);
    }
}

/// A baseline taken from the same device list reports no new device: when
/// every device that an `fdisk -l` listing names is a plain name, its
/// baseline (the joined names in double quotes, as `get_baseline` prints
/// them) lists every device of the listing, so `find_new_device` on that
/// listing and baseline finds none.
pub proof fn lemma_baseline_of_same_listing(output: Seq<char>)
    requires
        plain_listing(output),
    ensures
        debug_plain(join(fdisk_devices(output), ", "@)),
        new_devices(output, quoted_devices(output)) == Set::<Seq<char>>::empty(),
{
    let ds = fdisk_devices(output);
    lemma_join_debug_plain(ds);
    lemma_baseline_of_plain(output);
    lemma_current_of_plain(output);
    assert(new_devices(output, quoted_devices(output)) =~= Set::<Seq<char>>::empty());
}

/// The devices found against a baseline are those added since it was taken:
/// when the device list named plain devices both when the baseline was taken
/// (`earlier`) and now (`later`), the new devices are the ones listed now
/// and not then; with none listed now, none is found.
pub proof fn lemma_devices_since_baseline(earlier: Seq<char>, later: Seq<char>)
    requires
        plain_listing(earlier),
        plain_listing(later),
    ensures
        new_devices(later, quoted_devices(earlier)) == fdisk_devices(later).to_set().difference(
            fdisk_devices(earlier).to_set(),
        ),
{
    lemma_current_of_plain(later);
    lemma_baseline_of_plain(earlier);
    let now = fdisk_devices(later);
    let then = fdisk_devices(earlier);
    if then.len() == 0 {
        assert forall|x: Seq<char>| #[trigger] now.to_set().contains(x) implies x.len() > 0 by {
            let i = choose|i: int| 0 <= i < now.len() && now[i] == x;
            assert(plain_device(now[i]));
        }
        assert(seq![Seq::<char>::empty()].to_set() =~= set![Seq::<char>::empty()]) by {
            assert(seq![Seq::<char>::empty()][0] == Seq::<char>::empty());
        }
        assert(then.to_set() =~= Set::<Seq<char>>::empty());
        assert(new_devices(later, quoted_devices(earlier)) =~= now.to_set().difference(
            then.to_set(),
        ));
    }
}

/// A device inserted after the baseline was taken is the new device that
/// `find_new_device` reports: when the device list now names the plain
/// devices of the baseline's list followed by one more plain device `d`
/// that the baseline did not list, the new devices are exactly `d`.
pub proof fn lemma_inserted_device_is_found(earlier: Seq<char>, later: Seq<char>, d: Seq<char>)
    requires
        plain_listing(earlier),
        plain_device(d),
        !fdisk_devices(earlier).contains(d),
        fdisk_devices(later) == fdisk_devices(earlier).push(d),
    ensures
        new_devices(later, quoted_devices(earlier)) == set![d],
{
    let then = fdisk_devices(earlier);
    let now = fdisk_devices(later);
    assert forall|i: int| 0 <= i < now.len() implies plain_device(#[trigger] now[i]) by {
        if i < then.len() {
            assert(now[i] == then[i]);
        } else {
            assert(now[i] == d);
        }
    }
    assert(now[now.len() - 1] == d);
    lemma_devices_since_baseline(earlier, later);
    then.lemma_push_to_set_commute(d);
    assert(now.to_set().difference(then.to_set()) =~= set![d]);
}

} // verus!
