//! The `config.txt` file of a hardware wallet: lines of `name=value` that
//! record the state of the setup.
use vstd::prelude::*;
use crate::text::{
    append_chars, chars_eq, chars_of, lemma_split_char_concat, lemma_split_char_len,
    lemma_split_char_no_sep, lemma_split_char_piece_chars, lemma_split_char_single, pieces,
    split_char, split_chars, string_of,
};

verus! {

broadcast use vstd::seq::group_seq_axioms;

/// The entry that `line` holds: its name and value when it has exactly one `=`.
pub open spec fn entry_of(line: Seq<char>) -> Option<(Seq<char>, Seq<char>)> {
    let parts = split_char(line, '=');
    if parts.len() == 2 {
        Some((parts[0], parts[1]))
    } else {
        None
    }
}

/// The entries that the lines `ls` hold, in order.
pub open spec fn entries_of_lines(ls: Seq<Seq<char>>) -> Seq<(Seq<char>, Seq<char>)>
    decreases ls.len(),
{
    if ls.len() == 0 {
        Seq::empty()
    } else {
        let prev = entries_of_lines(ls.drop_last());
        match entry_of(ls.last()) {
            Some(e) => prev.push(e),
            None => prev,
        }
    }
}

/// The entries of a configuration text, in order: its `\n`-separated lines
/// that hold exactly one `=`.
pub open spec fn config_entries(contents: Seq<char>) -> Seq<(Seq<char>, Seq<char>)> {
    entries_of_lines(split_char(contents, '\n'))
}

/// The entries `es` with every entry named `name` given `value`.
pub open spec fn set_entry(
    es: Seq<(Seq<char>, Seq<char>)>,
    name: Seq<char>,
    value: Seq<char>,
) -> Seq<(Seq<char>, Seq<char>)> {
    es.map_values(
        |e: (Seq<char>, Seq<char>)|
            if e.0 == name {
                (e.0, value)
            } else {
                e
            },
    )
}

/// The line that rewriting `line` writes: an entry is written back as
/// `name=value\n`, its value replaced when its name is `name`; anything
/// else is dropped.
pub open spec fn rewritten_line(line: Seq<char>, name: Seq<char>, value: Seq<char>) -> Seq<char> {
    match entry_of(line) {
        Some((n, v)) => n + "="@ + (if n == name {
            value
        } else {
            v
        }) + "\n"@,
        None => Seq::empty(),
    }
}

/// The rewritten text of the lines `ls`.
pub open spec fn rewrite_lines(ls: Seq<Seq<char>>, name: Seq<char>, value: Seq<char>) -> Seq<char>
    decreases ls.len(),
{
    if ls.len() == 0 {
        Seq::empty()
    } else {
        rewrite_lines(ls.drop_last(), name, value) + rewritten_line(ls.last(), name, value)
    }
}

/// Whether `line` is an entry named `name`.
pub open spec fn is_entry_named(line: Seq<char>, name: Seq<char>) -> bool {
    entry_of(line) matches Some((n, v)) && n == name
}

/// Whether one of the lines `ls` is an entry named `name`.
pub open spec fn has_entry(ls: Seq<Seq<char>>, name: Seq<char>) -> bool {
    exists|i: int| 0 <= i < ls.len() && #[trigger] is_entry_named(ls[i], name)
}

/// The configuration text after setting `name` to `value`: every entry written
/// back on a line of its own, entries named `name` taking `value`, and
/// `name=value` appended (without a line ending) when no entry had that name.
pub open spec fn updated_config(contents: Seq<char>, name: Seq<char>, value: Seq<char>) -> Seq<char> {
    let ls = split_char(contents, '\n');
    rewrite_lines(ls, name, value) + if has_entry(ls, name) {
        Seq::empty()
    } else {
        name + "="@ + value
    }
}

/// The new text of the configuration file `contents` after setting `name` to
/// `value`, as the configuration is rewritten on each update.
pub fn write(contents: &str, name: &str, value: &str) -> (r: String)
    ensures
        r@ == updated_config(contents@, name@, value@),
{
    let text = chars_of(contents);
    let name_chars = chars_of(name);
    let value_chars = chars_of(value);
    let eq = chars_of("=");
    let nl = chars_of("\n");
    let ls = split_chars(&text, '\n');
    let ghost all = split_char(contents@, '\n');
    let n = ls.len();
    let mut out: Vec<char> = Vec::new();
    let mut written = false;
    let mut i: usize = 0;
    while i < n
        invariant
            n == ls@.len(),
            all == pieces(ls@),
            name_chars@ == name@,
            value_chars@ == value@,
            eq@ == "="@,
            nl@ == "\n"@,
            i <= n,
            out@ == rewrite_lines(all.take(i as int), name@, value@),
            written == has_entry(all.take(i as int), name@),
        decreases n - i,
    {
        let ghost line = all[i as int];
        assert(ls@[i as int]@ == line);
        let parts = split_chars(&ls[i], '=');
        let ghost before = out@;
        if parts.len() == 2 {
            assert(pieces(parts@)[0] == parts@[0]@ && pieces(parts@)[1] == parts@[1]@);
            append_chars(&mut out, &parts[0]);
            append_chars(&mut out, &eq);
            let same = chars_eq(&parts[0], &name_chars);
            if same {
                append_chars(&mut out, &value_chars);
                written = true;
            } else {
                append_chars(&mut out, &parts[1]);
            }
            append_chars(&mut out, &nl);
            assert(out@ =~= before + rewritten_line(line, name@, value@));
        } else {
            assert(rewritten_line(line, name@, value@) =~= Seq::<char>::empty());
            assert(out@ =~= before + rewritten_line(line, name@, value@));
        }
        proof {
            let t1 = all.take(i + 1);
            assert(t1.drop_last() =~= all.take(i as int));
            assert(t1.last() == line);
            if has_entry(all.take(i as int), name@) {
                let k = choose|k: int|
                    0 <= k < all.take(i as int).len() && #[trigger] is_entry_named(all.take(i as int)[k], name@);
                assert(t1[k] == all.take(i as int)[k]);
            }
            if is_entry_named(line, name@) {
                assert(t1[i as int] == line);
            }
            if has_entry(t1, name@) {
                let k = choose|k: int|
                    0 <= k < t1.len() && #[trigger] is_entry_named(t1[k], name@);
                if k < i {
                    assert(all.take(i as int)[k] == t1[k]);
                }
            }
        }
        i = i + 1;
    }
    assert(all.take(n as int) =~= all);
    if !written {
        append_chars(&mut out, &name_chars);
        append_chars(&mut out, &eq);
        append_chars(&mut out, &value_chars);
    }
    string_of(out.as_slice())
}


// ---------------------------------------------------------------------------
// Reading back what was written
// ---------------------------------------------------------------------------

/// The texts of the lines that rewriting `ls` writes, without line endings.
pub open spec fn rewritten_texts(ls: Seq<Seq<char>>, name: Seq<char>, value: Seq<char>) -> Seq<Seq<char>>
    decreases ls.len(),
{
    if ls.len() == 0 {
        Seq::empty()
    } else {
        let prev = rewritten_texts(ls.drop_last(), name, value);
        match entry_of(ls.last()) {
            Some((n, v)) => prev.push(n + "="@ + (if n == name {
                value
            } else {
                v
            })),
            None => prev,
        }
    }
}

/// The name and value of an entry hold no `=`, and no character that its line lacks.
proof fn lemma_entry_parts(line: Seq<char>, d: char)
    requires
        entry_of(line) is Some,
    ensures
        !entry_of(line)->Some_0.0.contains('='),
        !entry_of(line)->Some_0.1.contains('='),
        !line.contains(d) ==> !entry_of(line)->Some_0.0.contains(d) && !entry_of(
            line,
        )->Some_0.1.contains(d),
{
    lemma_split_char_no_sep(line, '=', 0);
    lemma_split_char_no_sep(line, '=', 1);
    if !line.contains(d) {
        lemma_split_char_piece_chars(line, '=', d, 0);
        lemma_split_char_piece_chars(line, '=', d, 1);
    }
}

/// `n=w` is the entry named `n` with value `w`.
proof fn lemma_entry_of_joined(n: Seq<char>, w: Seq<char>)
    requires
        !n.contains('='),
        !w.contains('='),
    ensures
        entry_of(n + "="@ + w) == Some((n, w)),
{
    reveal_strlit("=");
    assert("="@ =~= seq!['=']);
    lemma_split_char_concat(n, '=', w);
    lemma_split_char_single(n, '=');
    lemma_split_char_single(w, '=');
    assert(split_char(n + "="@ + w, '=') =~= seq![n, w]);
}

/// Concatenation of texts that hold neither `c`.
proof fn lemma_no_char_concat(a: Seq<char>, b: Seq<char>, c: char)
    requires
        !a.contains(c),
        !b.contains(c),
    ensures
        !(a + b).contains(c),
{
    if (a + b).contains(c) {
        let k = choose|k: int| 0 <= k < (a + b).len() && (a + b)[k] == c;
        if k < a.len() {
            assert(a[k] == c);
        } else {
            assert(b[k - a.len()] == c);
        }
    }
}

/// Splitting the rewritten text at line endings gives back the rewritten lines.
proof fn lemma_rewrite_split(ls: Seq<Seq<char>>, name: Seq<char>, value: Seq<char>, t: Seq<char>)
    requires
        forall|i: int| 0 <= i < ls.len() ==> !(#[trigger] ls[i]).contains('\n'),
        !t.contains('\n'),
        !value.contains('\n'),
    ensures
        split_char(rewrite_lines(ls, name, value) + t, '\n') == rewritten_texts(ls, name, value)
            + seq![t],
    decreases ls.len(),
{
    reveal_strlit("\n");
    reveal_strlit("=");
    if ls.len() == 0 {
        lemma_split_char_single(t, '\n');
        assert(rewrite_lines(ls, name, value) + t =~= t);
        assert(rewritten_texts(ls, name, value) + seq![t] =~= seq![t]);
    } else {
        let ls1 = ls.drop_last();
        let line = ls.last();
        assert(line == ls[ls.len() - 1]);
        match entry_of(line) {
            Some((n, v)) => {
                let w = if n == name {
                    value
                } else {
                    v
                };
                let m = n + "="@ + w;
                lemma_entry_parts(line, '\n');
                assert(!"="@.contains('\n')) by {
                    if "="@.contains('\n') {
                        let k = choose|k: int| 0 <= k < "="@.len() && "="@[k] == '\n';
                    }
                }
                lemma_no_char_concat(n, "="@, '\n');
                lemma_no_char_concat(n + "="@, w, '\n');
                lemma_rewrite_split(ls1, name, value, m);
                assert(rewritten_line(line, name, value) =~= m + seq!['\n']);
                assert(rewrite_lines(ls, name, value) + t =~= (rewrite_lines(ls1, name, value) + m)
                    + seq!['\n'] + t);
                lemma_split_char_concat(rewrite_lines(ls1, name, value) + m, '\n', t);
                lemma_split_char_single(t, '\n');
                assert(rewritten_texts(ls, name, value) == rewritten_texts(ls1, name, value).push(
                    m,
                ));
                assert(split_char(rewrite_lines(ls, name, value) + t, '\n') =~= rewritten_texts(
                    ls,
                    name,
                    value,
                ) + seq![t]);
            },
            None => {
                lemma_rewrite_split(ls1, name, value, t);
                assert(rewritten_line(line, name, value) =~= Seq::<char>::empty());
                assert(rewrite_lines(ls, name, value) =~= rewrite_lines(ls1, name, value));
            },
        }
    }
}

/// The entries of concatenated lines are the concatenated entries.
proof fn lemma_entries_concat(a: Seq<Seq<char>>, b: Seq<Seq<char>>)
    ensures
        entries_of_lines(a + b) == entries_of_lines(a) + entries_of_lines(b),
    decreases b.len(),
{
    if b.len() == 0 {
        assert(a + b =~= a);
        assert(entries_of_lines(b) =~= Seq::<(Seq<char>, Seq<char>)>::empty());
        assert(entries_of_lines(a) + entries_of_lines(b) =~= entries_of_lines(a));
    } else {
        lemma_entries_concat(a, b.drop_last());
        assert((a + b).drop_last() =~= a + b.drop_last());
        assert((a + b).last() == b.last());
        match entry_of(b.last()) {
            Some(e) => {
                assert(entries_of_lines(a + b) =~= entries_of_lines(a) + entries_of_lines(b));
            },
            None => {},
        }
    }
}

/// Reading the rewritten lines gives the old entries with `name` set to `value`.
proof fn lemma_entries_of_rewritten(ls: Seq<Seq<char>>, name: Seq<char>, value: Seq<char>)
    requires
        !value.contains('='),
    ensures
        entries_of_lines(rewritten_texts(ls, name, value)) == set_entry(
            entries_of_lines(ls),
            name,
            value,
        ),
    decreases ls.len(),
{
    if ls.len() > 0 {
        let ls1 = ls.drop_last();
        lemma_entries_of_rewritten(ls1, name, value);
        match entry_of(ls.last()) {
            Some((n, v)) => {
                lemma_entry_parts(ls.last(), '=');
                let w = if n == name {
                    value
                } else {
                    v
                };
                lemma_entry_of_joined(n, w);
                let m = n + "="@ + w;
                let rt1 = rewritten_texts(ls1, name, value);
                assert(rewritten_texts(ls, name, value) == rt1.push(m));
                assert(rt1.push(m).drop_last() =~= rt1);
                assert(rt1.push(m).last() == m);
                assert(entries_of_lines(rt1.push(m)) == entries_of_lines(rt1).push((n, w)));
                assert(entries_of_lines(ls) == entries_of_lines(ls1).push((n, v)));
                assert(entries_of_lines(rewritten_texts(ls, name, value)) =~= set_entry(
                    entries_of_lines(ls),
                    name,
                    value,
                ));
            },
            None => {
                assert(rewritten_texts(ls, name, value) == rewritten_texts(ls1, name, value));
                assert(entries_of_lines(ls) == entries_of_lines(ls1));
                assert(entries_of_lines(rewritten_texts(ls, name, value)) =~= set_entry(
                    entries_of_lines(ls),
                    name,
                    value,
                ));
            },
        }
    } else {
        assert(set_entry(entries_of_lines(ls), name, value) =~= Seq::<
            (Seq<char>, Seq<char>),
        >::empty());
    }
}

/// A line named `name` gives an entry named `name`.
proof fn lemma_has_entry_in_entries(ls: Seq<Seq<char>>, name: Seq<char>)
    requires
        has_entry(ls, name),
    ensures
        exists|j: int|
            0 <= j < entries_of_lines(ls).len() && (#[trigger] entries_of_lines(ls)[j]).0 == name,
    decreases ls.len(),
{
    let k = choose|k: int| 0 <= k < ls.len() && #[trigger] is_entry_named(ls[k], name);
    let ls1 = ls.drop_last();
    if k < ls.len() - 1 {
        assert(ls1[k] == ls[k]);
        assert(has_entry(ls1, name));
        lemma_has_entry_in_entries(ls1, name);
        let j = choose|j: int|
            0 <= j < entries_of_lines(ls1).len() && (#[trigger] entries_of_lines(ls1)[j]).0
                == name;
        assert(entries_of_lines(ls)[j] == entries_of_lines(ls1)[j]);
    } else {
        let e = entry_of(ls.last()).unwrap();
        assert(entries_of_lines(ls) == entries_of_lines(ls1).push(e));
        assert(entries_of_lines(ls)[entries_of_lines(ls1).len() as int] == e);
    }
}

/// Reading the configuration back after setting `name` to `value` finds
/// `name=value`: every entry that was named `name` now holds `value`, every
/// other entry is kept as it was and in its place, and `name=value` is added
/// at the end when no entry had that name. This holds when neither the name
/// nor the value holds `=` or a line ending.
pub proof fn lemma_config_read_after_write(contents: Seq<char>, name: Seq<char>, value: Seq<char>)
    requires
        !name.contains('='),
        !name.contains('\n'),
        !value.contains('='),
        !value.contains('\n'),
    ensures
        config_entries(updated_config(contents, name, value)) == set_entry(
            config_entries(contents),
            name,
            value,
        ) + if has_entry(split_char(contents, '\n'), name) {
            Seq::empty()
        } else {
            seq![(name, value)]
        },
        config_entries(updated_config(contents, name, value)).contains((name, value)),
        forall|i: int|
            0 <= i < config_entries(updated_config(contents, name, value)).len() && (
            #[trigger] config_entries(updated_config(contents, name, value))[i]).0 == name
                ==> config_entries(updated_config(contents, name, value))[i].1 == value,
{
    reveal_strlit("=");
    let ls = split_char(contents, '\n');
    let present = has_entry(ls, name);
    let t = if present {
        Seq::<char>::empty()
    } else {
        name + "="@ + value
    };
    assert forall|i: int| 0 <= i < ls.len() implies !(#[trigger] ls[i]).contains('\n') by {
        lemma_split_char_no_sep(contents, '\n', i);
    }
    assert(!t.contains('\n')) by {
        if !present {
            assert(!"="@.contains('\n')) by {
                if "="@.contains('\n') {
                    let k = choose|k: int| 0 <= k < "="@.len() && "="@[k] == '\n';
                }
            }
            lemma_no_char_concat(name, "="@, '\n');
            lemma_no_char_concat(name + "="@, value, '\n');
        }
    }
    lemma_rewrite_split(ls, name, value, t);
    let re = rewritten_texts(ls, name, value);
    lemma_entries_concat(re, seq![t]);
    lemma_entries_of_rewritten(ls, name, value);
    let tail = entries_of_lines(seq![t]);
    assert(seq![t].drop_last() =~= Seq::<Seq<char>>::empty());
    assert(entries_of_lines(seq![t].drop_last()) =~= Seq::<(Seq<char>, Seq<char>)>::empty());
    assert(seq![t].last() == t);
    if present {
        assert(split_char(t, '=') =~= seq![Seq::<char>::empty()]);
        assert(tail =~= Seq::<(Seq<char>, Seq<char>)>::empty());
    } else {
        lemma_entry_of_joined(name, value);
        assert(tail =~= seq![(name, value)]);
    }
    let es = config_entries(updated_config(contents, name, value));
    assert(es =~= set_entry(config_entries(contents), name, value) + tail);
    if present {
        lemma_has_entry_in_entries(ls, name);
        let j = choose|j: int|
            0 <= j < entries_of_lines(ls).len() && (#[trigger] entries_of_lines(ls)[j]).0 == name;
        assert(es[j] == (name, value));
    } else {
        assert(es[es.len() - 1] == (name, value));
    }
}

/// Rewriting a line after the lines `ls` appends that line's rewriting.
proof fn lemma_rewrite_push(ls: Seq<Seq<char>>, x: Seq<char>, name: Seq<char>, value: Seq<char>)
    ensures
        rewrite_lines(ls.push(x), name, value) == rewrite_lines(ls, name, value) + rewritten_line(
            x,
            name,
            value,
        ),
{
    assert(ls.push(x).drop_last() =~= ls);
    assert(ls.push(x).last() == x);
}

/// The rewritten lines still hold an entry named `name` when the lines did.
proof fn lemma_rewritten_has_entry(ls: Seq<Seq<char>>, name: Seq<char>, value: Seq<char>)
    requires
        !value.contains('='),
        has_entry(ls, name),
    ensures
        has_entry(rewritten_texts(ls, name, value), name),
    decreases ls.len(),
{
    let ls1 = ls.drop_last();
    let rt1 = rewritten_texts(ls1, name, value);
    let k = choose|k: int| 0 <= k < ls.len() && #[trigger] is_entry_named(ls[k], name);
    if k < ls.len() - 1 {
        assert(ls1[k] == ls[k]);
        assert(has_entry(ls1, name));
        lemma_rewritten_has_entry(ls1, name, value);
        let j = choose|j: int| 0 <= j < rt1.len() && #[trigger] is_entry_named(rt1[j], name);
        match entry_of(ls.last()) {
            Some((n, v)) => {
                let w = if n == name { value } else { v };
                assert(rewritten_texts(ls, name, value) == rt1.push(n + "="@ + w));
                assert(rewritten_texts(ls, name, value)[j] == rt1[j]);
            },
            None => {},
        }
    } else {
        assert(ls.last() == ls[k]);
        let (n, v) = entry_of(ls.last())->Some_0;
        lemma_entry_parts(ls.last(), '=');
        lemma_entry_of_joined(n, value);
        assert(n == name);
        let rt = rewritten_texts(ls, name, value);
        assert(rt == rt1.push(n + "="@ + value));
        assert(rt[rt1.len() as int] == n + "="@ + value);
        assert(is_entry_named(rt[rt1.len() as int], name));
    }
}

/// Rewriting the rewritten lines writes the same text again.
proof fn lemma_rewrite_rewritten(ls: Seq<Seq<char>>, name: Seq<char>, value: Seq<char>)
    requires
        !value.contains('='),
    ensures
        rewrite_lines(rewritten_texts(ls, name, value), name, value) == rewrite_lines(ls, name, value),
    decreases ls.len(),
{
    if ls.len() > 0 {
        let ls1 = ls.drop_last();
        lemma_rewrite_rewritten(ls1, name, value);
        let rt1 = rewritten_texts(ls1, name, value);
        match entry_of(ls.last()) {
            Some((n, v)) => {
                lemma_entry_parts(ls.last(), '=');
                let w = if n == name { value } else { v };
                let m = n + "="@ + w;
                lemma_entry_of_joined(n, w);
                lemma_rewrite_push(rt1, m, name, value);
                assert(rewritten_texts(ls, name, value) == rt1.push(m));
                assert(rewritten_line(m, name, value) == rewritten_line(ls.last(), name, value));
            },
            None => {
                assert(rewritten_texts(ls, name, value) == rt1);
            },
        }
    }
}

/// Writing the same entry twice changes nothing more: the second write gives
/// back the text of the first, with a line ending added when the first had
/// to append the entry (the appended entry has none). This holds when
/// neither the name nor the value holds `=` or a line ending.
pub proof fn lemma_config_write_twice(contents: Seq<char>, name: Seq<char>, value: Seq<char>)
    requires
        !name.contains('='),
        !name.contains('\n'),
        !value.contains('='),
        !value.contains('\n'),
    ensures
        updated_config(updated_config(contents, name, value), name, value) == updated_config(
            contents,
            name,
            value,
        ) + if has_entry(split_char(contents, '\n'), name) {
            Seq::<char>::empty()
        } else {
            "\n"@
        },
{
    reveal_strlit("=");
    reveal_strlit("\n");
    let ls = split_char(contents, '\n');
    let present = has_entry(ls, name);
    let t = if present {
        Seq::<char>::empty()
    } else {
        name + "="@ + value
    };
    let first = updated_config(contents, name, value);
    assert forall|i: int| 0 <= i < ls.len() implies !(#[trigger] ls[i]).contains('\n') by {
        lemma_split_char_no_sep(contents, '\n', i);
    }
    assert(!t.contains('\n')) by {
        if !present {
            assert(!"="@.contains('\n')) by {
                if "="@.contains('\n') {
                    let k = choose|k: int| 0 <= k < "="@.len() && "="@[k] == '\n';
                }
            }
            lemma_no_char_concat(name, "="@, '\n');
            lemma_no_char_concat(name + "="@, value, '\n');
        }
    }
    lemma_rewrite_split(ls, name, value, t);
    let rt = rewritten_texts(ls, name, value);
    let ls2 = split_char(first, '\n');
    assert(ls2 == rt + seq![t]);
    assert(rt + seq![t] =~= rt.push(t));
    lemma_rewrite_push(rt, t, name, value);
    lemma_rewrite_rewritten(ls, name, value);
    if present {
        assert(split_char(t, '=') =~= seq![Seq::<char>::empty()]);
        assert(rewritten_line(t, name, value) =~= Seq::<char>::empty());
        lemma_rewritten_has_entry(ls, name, value);
        let j = choose|j: int| 0 <= j < rt.len() && #[trigger] is_entry_named(rt[j], name);
        assert(ls2[j] == rt[j]);
        assert(has_entry(ls2, name));
        assert(updated_config(first, name, value) =~= first);
    } else {
        lemma_entry_of_joined(name, value);
        assert(rewritten_line(t, name, value) =~= t + "\n"@);
        assert(ls2[rt.len() as int] == t);
        assert(is_entry_named(ls2[rt.len() as int], name));
        assert(has_entry(ls2, name));
        assert(updated_config(first, name, value) =~= first + "\n"@);
    }
}

} // verus!
