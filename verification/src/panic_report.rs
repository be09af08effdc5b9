//! The frame list that the development panic hook prints: the function names
//! of a captured backtrace's debug text, with the frames of the panic
//! machinery itself left out.
use vstd::prelude::*;
use crate::text::{
    chars_of, contains_sub, find_char, find_sub, is_first_char, is_first_occurrence, is_last_char,
    occurs_at, rfind_char, slice_chars, split_on, split_on_char, string_from_chars, string_views,
    trim, trim_chars, views, join, is_ws, split_scan, trim_start, trim_end,
};

verus! {

/// The text that opens a frame's function name in a backtrace's debug text.
pub open spec fn frame_marker() -> Seq<char> {
    seq!['{', ' ', 'f', 'n', ':', ' ', '"']
}

/// The text that marks a frame of the panic machinery.
pub open spec fn panicking_marker() -> Seq<char> {
    seq!['c', 'o', 'r', 'e', ':', ':', 'p', 'a', 'n', 'i', 'c', 'k', 'i', 'n', 'g']
}

/// `s` after its first `c`, or all of `s` when there is none.
pub open spec fn after_first(s: Seq<char>, c: char) -> Seq<char> {
    if exists|i: int| is_first_char(s, c, i) {
        s.skip((choose|i: int| is_first_char(s, c, i)) + 1)
    } else {
        s
    }
}

/// `s` before its last `c`, or all of `s` when there is none.
pub open spec fn before_last(s: Seq<char>, c: char) -> Seq<char> {
    if exists|i: int| is_last_char(s, c, i) {
        s.take(choose|i: int| is_last_char(s, c, i))
    } else {
        s
    }
}

/// The function name in one comma-separated piece of the debug text: what
/// follows the first frame marker up to the next `"`; none where the piece
/// has no marker or no closing quote.
pub open spec fn frame_name(piece: Seq<char>) -> Option<Seq<char>> {
    if exists|i: int| is_first_occurrence(piece, frame_marker(), i) {
        let rest = piece.skip((choose|i: int| is_first_occurrence(piece, frame_marker(), i)) + 7);
        if exists|e: int| is_first_char(rest, '"', e) {
            Some(rest.take(choose|e: int| is_first_char(rest, '"', e)))
        } else {
            None
        }
    } else {
        None
    }
}

/// The names of the pieces that have one, in order.
pub open spec fn frame_names(pieces: Seq<Seq<char>>) -> Seq<Seq<char>>
    decreases pieces.len(),
{
    if pieces.len() == 0 {
        Seq::empty()
    } else {
        let prev = frame_names(pieces.drop_last());
        match frame_name(pieces.last()) {
            Some(n) => prev.push(n),
            None => prev,
        }
    }
}

/// `names[i]` is the last name that mentions the panic machinery.
pub open spec fn is_last_panicking(names: Seq<Seq<char>>, i: int) -> bool {
    &&& 0 <= i < names.len()
    &&& contains_sub(names[i], panicking_marker())
    &&& forall|j: int| i < j < names.len() ==> !contains_sub(#[trigger] names[j], panicking_marker())
}

/// The names after the last one that mentions the panic machinery, or all of
/// them when none does.
pub open spec fn after_panicking(names: Seq<Seq<char>>) -> Seq<Seq<char>> {
    if exists|i: int| is_last_panicking(names, i) {
        names.skip((choose|i: int| is_last_panicking(names, i)) + 1)
    } else {
        names
    }
}

/// The comma-separated pieces of the bracketed frame list, each trimmed.
pub open spec fn frame_pieces(display: Seq<char>) -> Seq<Seq<char>> {
    split_on(before_last(after_first(display, '['), ']'), ',').map_values(|p: Seq<char>| trim(p))
}

/// The frames that the panic hook prints for a backtrace's debug text.
pub open spec fn reported_frames(display: Seq<char>) -> Seq<Seq<char>> {
    after_panicking(frame_names(frame_pieces(display)))
}

proof fn lemma_first_char_unique(s: Seq<char>, c: char, i: int, j: int)
    requires
        is_first_char(s, c, i),
        is_first_char(s, c, j),
    ensures
        i == j,
{
}

proof fn lemma_last_char_unique(s: Seq<char>, c: char, i: int, j: int)
    requires
        is_last_char(s, c, i),
        is_last_char(s, c, j),
    ensures
        i == j,
{
}

proof fn lemma_first_occurrence_unique(s: Seq<char>, p: Seq<char>, i: int, j: int)
    requires
        is_first_occurrence(s, p, i),
        is_first_occurrence(s, p, j),
    ensures
        i == j,
{
}

proof fn lemma_last_panicking_unique(names: Seq<Seq<char>>, i: int, j: int)
    requires
        is_last_panicking(names, i),
        is_last_panicking(names, j),
    ensures
        i == j,
{
}

/// `s` after its first `c`, or a copy of `s` when there is none.
fn text_after_first(s: &Vec<char>, c: char) -> (r: Vec<char>)
    ensures
        r@ == after_first(s@, c),
{
    match find_char(s, c) {
        Some(i) => {
            proof {
                let k = choose|k: int| is_first_char(s@, c, k);
                lemma_first_char_unique(s@, c, i as int, k);
            }
            assert(i < s.len());
            slice_chars(s, i + 1, s.len())
        },
        None => slice_chars(s, 0, s.len()),
    }
}

/// `s` before its last `c`, or a copy of `s` when there is none.
fn text_before_last(s: &Vec<char>, c: char) -> (r: Vec<char>)
    ensures
        r@ == before_last(s@, c),
{
    match rfind_char(s, c) {
        Some(i) => {
            proof {
                let k = choose|k: int| is_last_char(s@, c, k);
                lemma_last_char_unique(s@, c, i as int, k);
            }
            slice_chars(s, 0, i)
        },
        None => slice_chars(s, 0, s.len()),
    }
}

/// The function name in one piece of the debug text, if it has one.
pub fn frame_name_of(piece: &Vec<char>) -> (r: Option<Vec<char>>)
    ensures
        match r {
            Some(n) => frame_name(piece@) == Some(n@),
            None => frame_name(piece@) is None,
        },
{
    let marker = chars_of("{ fn: \"");
    proof {
        reveal_strlit("{ fn: \"");
        assert(marker@ =~= frame_marker());
    }
    match find_sub(piece, &marker) {
        Some(start) => {
            proof {
                let k = choose|k: int| is_first_occurrence(piece@, frame_marker(), k);
                lemma_first_occurrence_unique(piece@, frame_marker(), start as int, k);
            }
            assert(occurs_at(piece@, frame_marker(), start as int));
            assert(start + 7 <= piece.len());
            let rest = slice_chars(piece, start + 7, piece.len());
            assert(rest@ == piece@.skip(start + 7));
            match find_char(&rest, '"') {
                Some(end) => {
                    proof {
                        let k = choose|k: int| is_first_char(rest@, '"', k);
                        lemma_first_char_unique(rest@, '"', end as int, k);
                    }
                    Some(slice_chars(&rest, 0, end))
                },
                None => None,
            }
        },
        None => {
            assert forall|i: int| !is_first_occurrence(piece@, frame_marker(), i) by {
                if is_first_occurrence(piece@, frame_marker(), i) {
                    assert(occurs_at(piece@, frame_marker(), i));
                }
            }
            None
        },
    }
}

/// The function names of a backtrace's debug text (`format!("{:?}", backtrace)`)
/// that the panic hook prints: the bracketed list is split at commas, each
/// piece trimmed, the name taken from each piece that has one, and the names
/// up to the last one that mentions `core::panicking` dropped.
pub fn backtrace_frames(display: &str) -> (frames: Vec<String>)
    ensures
        string_views(frames@) == reported_frames(display@),
{
    let text = chars_of(display);
    let inner = text_after_first(&text, '[');
    let inner = text_before_last(&inner, ']');
    let raw = split_on_char(&inner, ',');
    let ghost pieces = views(raw@).map_values(|p: Seq<char>| trim(p));
    assert(pieces == frame_pieces(display@));
    let mut names: Vec<Vec<char>> = Vec::new();
    let mut k: usize = 0;
    while k < raw.len()
        invariant
            k <= raw.len(),
            pieces.len() == raw@.len(),
            forall|j: int| 0 <= j < raw@.len() ==> #[trigger] pieces[j] == trim(raw@[j]@),
            views(names@) == frame_names(pieces.take(k as int)),
        decreases raw.len() - k,
    {
        let piece = trim_chars(&raw[k]);
        assert(pieces.take(k + 1).drop_last() =~= pieces.take(k as int));
        assert(pieces[k as int] == piece@);
        match frame_name_of(&piece) {
            Some(n) => {
                names.push(n);
                assert(views(names@) =~= frame_names(pieces.take(k as int)).push(n@));
            },
            None => {},
        }
        k += 1;
    }
    assert(pieces.take(raw.len() as int) =~= pieces);
    let ghost all = views(names@);
    let marker = chars_of("core::panicking");
    proof {
        reveal_strlit("core::panicking");
        assert(marker@ =~= panicking_marker());
    }
    let mut start: usize = 0;
    let mut i: usize = names.len();
    while i > 0
        invariant_except_break
            i <= names.len(),
            start == 0,
            forall|j: int| i <= j < all.len() ==> !contains_sub(#[trigger] all[j], panicking_marker()),
        invariant
            all == views(names@),
            marker@ == panicking_marker(),
        ensures
            start <= names.len(),
            start == 0 ==> forall|j: int| 0 <= j < all.len() ==> !contains_sub(#[trigger] all[j], panicking_marker()),
            start > 0 ==> is_last_panicking(all, start - 1),
        decreases i,
    {
        if find_sub(&names[i - 1], &marker).is_some() {
            assert(is_last_panicking(all, i - 1));
            start = i;
            break;
        }
        i -= 1;
    }
    proof {
        if start > 0 {
            let k = choose|k: int| is_last_panicking(all, k);
            lemma_last_panicking_unique(all, (start - 1) as int, k);
        } else {
            assert(!exists|k: int| is_last_panicking(all, k));
        }
    }
    let mut frames: Vec<String> = Vec::new();
    let mut m: usize = start;
    while m < names.len()
        invariant
            start <= m <= names.len(),
            all == views(names@),
            string_views(frames@) == all.subrange(start as int, m as int),
        decreases names.len() - m,
    {
        let f = string_from_chars(&names[m]);
        assert(f@ == all[m as int]);
        let ghost before = frames@;
        frames.push(f);
        assert(string_views(frames@) =~= string_views(before).push(f@));
        assert(string_views(frames@) =~= all.subrange(start as int, m + 1));
        m += 1;
    }
    assert(all.subrange(start as int, all.len() as int) =~= all.skip(start as int));
    frames
}


/// No frame that the hook prints belongs to the panic machinery, and the
/// printed frames are the last frames of the backtrace.
pub proof fn law_reported_frames_skip_panic_machinery(names: Seq<Seq<char>>, j: int)
    requires
        0 <= j < after_panicking(names).len(),
    ensures
        !contains_sub(after_panicking(names)[j], panicking_marker()),
        after_panicking(names) == names.skip(names.len() - after_panicking(names).len()),
{
    if exists|i: int| is_last_panicking(names, i) {
        let i = choose|i: int| is_last_panicking(names, i);
        assert(after_panicking(names)[j] == names[i + 1 + j]);
    } else {
        assert(names.skip(0) =~= names);
        if contains_sub(names[j], panicking_marker()) {
            lemma_last_panicking_exists(names, j);
        }
    }
}

proof fn lemma_last_panicking_exists(names: Seq<Seq<char>>, j: int)
    requires
        0 <= j < names.len(),
        contains_sub(names[j], panicking_marker()),
    ensures
        exists|i: int| is_last_panicking(names, i),
    decreases names.len() - j,
{
    if forall|m: int| j < m < names.len() ==> !contains_sub(#[trigger] names[m], panicking_marker()) {
        assert(is_last_panicking(names, j));
    } else {
        let m = choose|m: int| j < m < names.len() && contains_sub(#[trigger] names[m], panicking_marker());
        lemma_last_panicking_exists(names, m);
    }
}

/// Cutting after the first `c`: whatever follows it, `c`s included, is kept.
pub proof fn law_after_first(a: Seq<char>, c: char, b: Seq<char>)
    requires
        !a.contains(c),
    ensures
        after_first(a + seq![c] + b, c) == b,
{
    let s = a + seq![c] + b;
    assert(is_first_char(s, c, a.len() as int)) by {
        assert forall|j: int| 0 <= j < a.len() implies s[j] != c by {
            assert(s[j] == a[j]);
        }
    }
    let k = choose|k: int| is_first_char(s, c, k);
    lemma_first_char_unique(s, c, a.len() as int, k);
    assert(s.skip(a.len() as int + 1) =~= b);
}

/// Cutting before the last `c`: whatever comes before it, `c`s included, is
/// kept.
pub proof fn law_before_last(a: Seq<char>, c: char, b: Seq<char>)
    requires
        !b.contains(c),
    ensures
        before_last(a + seq![c] + b, c) == a,
{
    let s = a + seq![c] + b;
    assert(is_last_char(s, c, a.len() as int)) by {
        assert forall|j: int| a.len() < j < s.len() implies s[j] != c by {
            assert(s[j] == b[j - a.len() - 1]);
        }
    }
    let k = choose|k: int| is_last_char(s, c, k);
    lemma_last_char_unique(s, c, a.len() as int, k);
    assert(s.take(a.len() as int) =~= a);
}

/// The frame list is everything between the first `[` and the last `]` of
/// the debug text, so brackets inside function names (as in
/// `<usize as SliceIndex<[T]>>::index`) do not cut it short: the frames
/// reported for `prefix [ list ]` are those read from the comma-separated
/// pieces of `list`.
pub proof fn law_frames_read_whole_bracketed_list(prefix: Seq<char>, list: Seq<char>)
    requires
        !prefix.contains('['),
    ensures
        reported_frames(prefix + seq!['['] + list + seq![']'])
            == after_panicking(frame_names(split_on(list, ',').map_values(|p: Seq<char>| trim(p)))),
{
    let d = prefix + seq!['['] + list + seq![']'];
    assert(d == prefix + seq!['['] + (list + seq![']']));
    law_after_first(prefix, '[', list + seq![']']);
    assert(list + seq![']'] == list + seq![']'] + Seq::<char>::empty());
    law_before_last(list, ']', Seq::<char>::empty());
    assert(before_last(after_first(d, '['), ']') == list);
}

/// How a frame whose function is `n` appears in a backtrace's debug text.
pub open spec fn frame_entry(n: Seq<char>) -> Seq<char> {
    frame_marker() + n + seq!['"', ' ', '}']
}

proof fn lemma_split_scan_no_sep(b: Seq<char>)
    requires
        !b.contains(','),
    ensures
        split_scan(b, ',') == (Seq::<Seq<char>>::empty(), b),
    decreases b.len(),
{
    if b.len() > 0 {
        assert(!b.drop_last().contains(',')) by {
            if b.drop_last().contains(',') {
                let j = choose|j: int| 0 <= j < b.drop_last().len() && b.drop_last()[j] == ',';
                assert(b[j] == ',');
            }
        }
        lemma_split_scan_no_sep(b.drop_last());
        assert(b.last() != ',') by {
            assert(b[b.len() - 1] == b.last());
        }
        assert(b.drop_last().push(b.last()) =~= b);
    }
}

proof fn lemma_split_scan_after_sep(a: Seq<char>, b: Seq<char>)
    requires
        !b.contains(','),
    ensures
        split_scan(a + seq![','] + b, ',') == (split_on(a, ','), b),
    decreases b.len(),
{
    let s = a + seq![','] + b;
    if b.len() == 0 {
        assert(s.drop_last() =~= a);
        assert(s.last() == ',');
    } else {
        assert(!b.drop_last().contains(',')) by {
            if b.drop_last().contains(',') {
                let j = choose|j: int| 0 <= j < b.drop_last().len() && b.drop_last()[j] == ',';
                assert(b[j] == ',');
            }
        }
        lemma_split_scan_after_sep(a, b.drop_last());
        assert(s.drop_last() =~= a + seq![','] + b.drop_last());
        assert(s.last() == b.last());
        assert(b.last() != ',') by {
            assert(b[b.len() - 1] == b.last());
        }
        assert(b.drop_last().push(b.last()) =~= b);
    }
}

/// The comma-separated pieces of `join(ps, ", ")`, where no `ps[i]` holds a
/// comma: the first piece, then each other one after its space.
proof fn lemma_split_join(ps: Seq<Seq<char>>)
    requires
        ps.len() > 0,
        forall|i: int| 0 <= i < ps.len() ==> !(#[trigger] ps[i]).contains(','),
    ensures
        split_on(join(ps, seq![',', ' ']), ',')
            == Seq::new(ps.len(), |i: int| if i == 0 { ps[0] } else { seq![' '] + ps[i] }),
    decreases ps.len(),
{
    if ps.len() == 1 {
        lemma_split_scan_no_sep(ps[0]);
        assert(split_on(join(ps, seq![',', ' ']), ',') =~= Seq::new(ps.len(), |i: int| if i == 0 { ps[0] } else { seq![' '] + ps[i] }));
    } else {
        let prev = ps.drop_last();
        lemma_split_join(prev);
        let a = join(prev, seq![',', ' ']);
        let b = seq![' '] + ps.last();
        assert(join(ps, seq![',', ' ']) =~= a + seq![','] + b);
        assert(!b.contains(',')) by {
            assert(!ps[ps.len() - 1].contains(','));
            if b.contains(',') {
                let j = choose|j: int| 0 <= j < b.len() && b[j] == ',';
                assert(ps.last()[j - 1] == ',');
            }
        }
        lemma_split_scan_after_sep(a, b);
        assert(split_on(join(ps, seq![',', ' ']), ',') =~= Seq::new(ps.len(), |i: int| if i == 0 { ps[0] } else { seq![' '] + ps[i] }));
    }
}

proof fn lemma_frame_entry_name(n: Seq<char>)
    requires
        !n.contains('"'),
    ensures
        frame_name(frame_entry(n)) == Some(n),
{
    let e = frame_entry(n);
    assert(e.subrange(0, 7) =~= frame_marker());
    assert(is_first_occurrence(e, frame_marker(), 0));
    let k = choose|k: int| is_first_occurrence(e, frame_marker(), k);
    lemma_first_occurrence_unique(e, frame_marker(), 0, k);
    let rest = e.skip(7);
    assert(rest =~= n + seq!['"', ' ', '}']);
    assert(is_first_char(rest, '"', n.len() as int)) by {
        assert forall|j: int| 0 <= j < n.len() implies rest[j] != '"' by {
            assert(rest[j] == n[j]);
        }
    }
    let q = choose|q: int| is_first_char(rest, '"', q);
    lemma_first_char_unique(rest, '"', n.len() as int, q);
    assert(rest.take(n.len() as int) =~= n);
}

proof fn lemma_frame_entry_trim(n: Seq<char>)
    ensures
        trim(frame_entry(n)) == frame_entry(n),
        trim(seq![' '] + frame_entry(n)) == frame_entry(n),
{
    let e = frame_entry(n);
    assert(e[0] == '{');
    assert(e.last() == '}');
    assert(trim_start(e) == e);
    assert(trim_end(e) == e);
    assert((seq![' '] + e).drop_first() =~= e);
    assert(trim_start(seq![' '] + e) == trim_start(e));
}

proof fn lemma_frame_entry_no_comma(n: Seq<char>)
    requires
        !n.contains(','),
    ensures
        !frame_entry(n).contains(','),
{
    let e = frame_entry(n);
    if e.contains(',') {
        let j = choose|j: int| 0 <= j < e.len() && e[j] == ',';
        if 7 <= j < 7 + n.len() {
            assert(n[j - 7] == ',');
        }
    }
}

proof fn lemma_frame_entry(n: Seq<char>)
    requires
        !n.contains('"'),
    ensures
        frame_name(frame_entry(n)) == Some(n),
        trim(frame_entry(n)) == frame_entry(n),
        trim(seq![' '] + frame_entry(n)) == frame_entry(n),
        !n.contains(',') ==> !frame_entry(n).contains(','),
{
    lemma_frame_entry_name(n);
    lemma_frame_entry_trim(n);
    if !n.contains(',') {
        lemma_frame_entry_no_comma(n);
    }
}

proof fn lemma_frame_names_of_entries(names: Seq<Seq<char>>)
    requires
        forall|i: int| 0 <= i < names.len() ==> !(#[trigger] names[i]).contains('"'),
    ensures
        frame_names(names.map_values(|n: Seq<char>| frame_entry(n))) == names,
    decreases names.len(),
{
    if names.len() > 0 {
        let ps = names.map_values(|n: Seq<char>| frame_entry(n));
        lemma_frame_names_of_entries(names.drop_last());
        assert(ps.drop_last() =~= names.drop_last().map_values(|n: Seq<char>| frame_entry(n)));
        lemma_frame_entry(names.last());
        assert(names.drop_last().push(names.last()) =~= names);
    }
}

/// The panic hook prints the function names of the frames after the panic
/// machinery.  For a backtrace whose frames name the functions `names` (none
/// of them holding a comma or a quote, or mentioning `core::panicking`),
/// the frames printed are exactly `names`, in order, whatever brackets the
/// names hold.
#[verifier::rlimit(40)]
pub proof fn law_frames_of_backtrace(prefix: Seq<char>, names: Seq<Seq<char>>)
    requires
        !prefix.contains('['),
        forall|i: int| 0 <= i < names.len() ==> !(#[trigger] names[i]).contains(',') && !names[i].contains('"')
            && !contains_sub(names[i], panicking_marker()),
    ensures
        reported_frames(prefix + seq!['['] + join(names.map_values(|n: Seq<char>| frame_entry(n)), seq![',', ' '])
            + seq![']']) == names,
{
    let ps = names.map_values(|n: Seq<char>| frame_entry(n));
    let list = join(ps, seq![',', ' ']);
    law_frames_read_whole_bracketed_list(prefix, list);
    let pieces = split_on(list, ',').map_values(|p: Seq<char>| trim(p));
    if names.len() == 0 {
        assert(list =~= Seq::<char>::empty());
        lemma_split_scan_no_sep(list);
        assert(pieces =~= seq![Seq::<char>::empty()]);
        assert(trim(Seq::<char>::empty()) =~= Seq::<char>::empty());
        assert(frame_name(Seq::<char>::empty()) is None);
        assert(frame_names(pieces) == frame_names(pieces.drop_last())) by {
            assert(pieces.last() == Seq::<char>::empty());
        }
        assert(pieces.drop_last() =~= Seq::<Seq<char>>::empty());
    } else {
        assert forall|i: int| 0 <= i < ps.len() implies !(#[trigger] ps[i]).contains(',') by {
            lemma_frame_entry(names[i]);
        }
        lemma_split_join(ps);
        assert forall|i: int| 0 <= i < ps.len() implies #[trigger] pieces[i] == ps[i] by {
            lemma_frame_entry(names[i]);
        }
        assert(pieces =~= ps);
    }
    lemma_frame_names_of_entries(names);
    assert(!exists|i: int| is_last_panicking(names, i));
}

} // verus!
