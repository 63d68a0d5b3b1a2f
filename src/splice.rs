//! The delimiter splicer: replaces the lines between a start marker line and
//! an end marker line of a file by a rendered block.

use vstd::prelude::*;
use vstd::string::StringExecFns;
use crate::names::string_views;
use crate::text::{
    chars_of, is_whitespace, lower_of, push_chars, push_str, string_of, to_lowercase,
    white_space,
};

verus! {

/// Marker lines used when the configuration names none.
pub const DEFAULT_START: &'static str = "# Start flavours";

pub const DEFAULT_END: &'static str = "# End flavours";

/// Why a splice could not be made.
#[derive(Clone, Copy, Debug, PartialEq, Eq, Structural)]
pub enum SpliceError {
    StartMarkerNotFound,
    EndMarkerNotFound,
}

/// A line without its final carriage return, if it has one.
pub open spec fn strip_cr(l: Seq<char>) -> Seq<char> {
    if l.len() > 0 && l.last() == '\r' {
        l.drop_last()
    } else {
        l
    }
}

/// After reading `s`: the finished lines, and the line being read.
pub open spec fn line_state(s: Seq<char>) -> (Seq<Seq<char>>, Seq<char>)
    decreases s.len(),
{
    if s.len() == 0 {
        (seq![], seq![])
    } else {
        let prev = line_state(s.drop_last());
        if s.last() == '\n' {
            (prev.0.push(strip_cr(prev.1)), seq![])
        } else {
            (prev.0, prev.1.push(s.last()))
        }
    }
}

/// The lines of `s`: split at `\n`, a `\r` before it dropped; a final line
/// ending is optional and adds no empty line.
pub open spec fn lines_of(s: Seq<char>) -> Seq<Seq<char>> {
    let st = line_state(s);
    if st.1.len() == 0 {
        st.0
    } else {
        st.0.push(st.1)
    }
}

/// `s` without leading white space.
pub open spec fn trim_start(s: Seq<char>) -> Seq<char>
    decreases s.len(),
{
    if s.len() > 0 && white_space(s[0]) {
        trim_start(s.skip(1))
    } else {
        s
    }
}

/// `s` without trailing white space.
pub open spec fn trim_end(s: Seq<char>) -> Seq<char>
    decreases s.len(),
{
    if s.len() > 0 && white_space(s.last()) {
        trim_end(s.drop_last())
    } else {
        s
    }
}

pub open spec fn trim(s: Seq<char>) -> Seq<char> {
    trim_end(trim_start(s))
}

/// What a line is compared by: trimmed, then lower-cased.
pub open spec fn normalized(l: Seq<char>) -> Seq<char> {
    lower_of(trim(l))
}

/// The first key at or after `from` that is `m`.
pub open spec fn first_match(keys: Seq<Seq<char>>, from: int, m: Seq<char>) -> Option<int>
    decreases keys.len() - from,
{
    if from < 0 || from >= keys.len() {
        None
    } else if keys[from] == m {
        Some(from)
    } else {
        first_match(keys, from + 1, m)
    }
}

/// After reading `s`: the finished lines, each with the `\n` that ends it,
/// and the line being read.
pub open spec fn segment_state(s: Seq<char>) -> (Seq<Seq<char>>, Seq<char>)
    decreases s.len(),
{
    if s.len() == 0 {
        (seq![], seq![])
    } else {
        let prev = segment_state(s.drop_last());
        if s.last() == '\n' {
            (prev.0.push(prev.1.push('\n')), seq![])
        } else {
            (prev.0, prev.1.push(s.last()))
        }
    }
}

/// The lines of `s` as they stand in it, each with its own ending: `\n`,
/// `\r\n`, or none for a last line without one.
pub open spec fn segments(s: Seq<char>) -> Seq<Seq<char>> {
    let st = segment_state(s);
    if st.1.len() == 0 {
        st.0
    } else {
        st.0.push(st.1)
    }
}

/// The text of a line without its ending.
pub open spec fn line_text(l: Seq<char>) -> Seq<char> {
    if l.len() > 0 && l.last() == '\n' {
        strip_cr(l.drop_last())
    } else {
        l
    }
}

/// What each line is compared by: its text, trimmed and lower-cased.
pub open spec fn keys_of(ls: Seq<Seq<char>>) -> Seq<Seq<char>> {
    ls.map_values(|l: Seq<char>| normalized(line_text(l)))
}

/// The lines one after the other.
pub open spec fn concat(ls: Seq<Seq<char>>) -> Seq<char>
    decreases ls.len(),
{
    if ls.len() == 0 {
        seq![]
    } else {
        concat(ls.drop_last()) + ls.last()
    }
}

/// The spliced text, given the key each line is compared by: the lines up
/// to and including the first whose key is `start`, the block, then the
/// lines from the first later one whose key is `end`, all as they stood.
pub open spec fn splice_by(
    ls: Seq<Seq<char>>,
    keys: Seq<Seq<char>>,
    start: Seq<char>,
    end: Seq<char>,
    block: Seq<char>,
) -> Result<Seq<char>, SpliceError> {
    match first_match(keys, 0, start) {
        None => Err(SpliceError::StartMarkerNotFound),
        Some(s) => match first_match(keys, s + 1, end) {
            None => Err(SpliceError::EndMarkerNotFound),
            Some(e) => Ok(concat(ls.take(s + 1)) + block + concat(ls.skip(e))),
        },
    }
}

/// The spliced file.
pub open spec fn splice(content: Seq<char>, start: Seq<char>, end: Seq<char>, block: Seq<char>)
    -> Result<Seq<char>, SpliceError> {
    splice_by(segments(content), keys_of(segments(content)), start, end, block)
}

/// The character sequences held by a vector of lines.
pub open spec fn views(v: Seq<Vec<char>>) -> Seq<Seq<char>> {
    v.map_values(|l: Vec<char>| l@)
}

/// Splits text into lines.
pub fn split_lines(s: &str) -> (r: Vec<Vec<char>>)
    ensures
        views(r@) == lines_of(s@),
{
    let cs = chars_of(s);
    let mut done: Vec<Vec<char>> = Vec::new();
    let mut cur: Vec<char> = Vec::new();
    let n = cs.len();
    for i in 0..n
        invariant
            n == cs@.len(),
            cs@ == s@,
            (views(done@), cur@) == line_state(cs@.take(i as int)),
    {
        let ghost prev = cs@.take(i as int);
        assert(cs@.take(i + 1).drop_last() =~= prev);
        let c = cs[i];
        if c == '\n' {
            if cur.len() > 0 && cur[cur.len() - 1] == '\r' {
                cur.pop();
                assert(cur@ =~= strip_cr(line_state(prev).1));
            }
            done.push(cur);
            cur = Vec::new();
            assert(views(done@) =~= line_state(prev).0.push(strip_cr(line_state(prev).1)));
        } else {
            cur.push(c);
        }
    }
    assert(cs@.take(n as int) =~= cs@);
    if cur.len() > 0 {
        done.push(cur);
        assert(views(done@) =~= lines_of(s@));
    }
    done
}

/// The bounds of `v[lo..hi]` with white space trimmed from both ends.
fn trim_bounds(v: &Vec<char>) -> (r: (usize, usize))
    ensures
        r.0 <= r.1 <= v@.len(),
        v@.subrange(r.0 as int, r.1 as int) == trim(v@),
{
    let n = v.len();
    let mut lo: usize = 0;
    assert(v@.subrange(0, n as int) =~= v@);
    while lo < n && is_whitespace(v[lo])
        invariant
            lo <= n == v@.len(),
            trim_start(v@) == trim_start(v@.subrange(lo as int, n as int)),
        decreases n - lo,
    {
        assert(v@.subrange(lo as int, n as int).skip(1) =~= v@.subrange(lo + 1, n as int));
        lo = lo + 1;
    }
    let mut hi: usize = n;
    assert(trim_start(v@) == v@.subrange(lo as int, n as int));
    while hi > lo && is_whitespace(v[hi - 1])
        invariant
            lo <= hi <= n == v@.len(),
            trim(v@) == trim_end(v@.subrange(lo as int, hi as int)),
        decreases hi - lo,
    {
        assert(v@.subrange(lo as int, hi as int).drop_last() =~= v@.subrange(
            lo as int,
            hi - 1,
        ));
        hi = hi - 1;
    }
    (lo, hi)
}

/// The normalized text of a line: trimmed, then lower-cased.
pub fn normalize_line(v: &Vec<char>) -> (r: String)
    ensures
        r@ == normalized(v@),
{
    let (lo, hi) = trim_bounds(v);
    let t = string_of(v, lo, hi);
    to_lowercase(t.as_str())
}

/// A marker as lines are compared with it: the configured text, or the
/// default, trimmed and lower-cased.
pub fn marker(custom: &Option<String>, default: &str) -> (r: String)
    ensures
        r@ == normalized(
            match custom {
                Some(c) => c@,
                None => default@,
            },
        ),
{
    let v = match custom {
        Some(c) => chars_of(c.as_str()),
        None => chars_of(default),
    };
    normalize_line(&v)
}

/// The first key at or after `from` that is `m`.
fn find_key(keys: &Vec<String>, from: usize, m: &String) -> (r: Option<usize>)
    requires
        from <= keys@.len(),
    ensures
        match r {
            Some(k) => first_match(string_views(keys@), from as int, m@) == Some(k as int),
            None => first_match(string_views(keys@), from as int, m@) is None,
        },
        r matches Some(k) ==> from <= k < keys@.len(),
{
    let ghost ks = string_views(keys@);
    let mut k = from;
    while k < keys.len()
        invariant
            from <= k <= keys@.len(),
            ks == string_views(keys@),
            first_match(ks, from as int, m@) == first_match(ks, k as int, m@),
        decreases keys@.len() - k,
    {
        if keys[k] == *m {
            return Some(k);
        }
        k = k + 1;
    }
    None
}

/// Splits text into its lines, each keeping its own ending.
pub fn split_segments(s: &str) -> (r: Vec<Vec<char>>)
    ensures
        views(r@) == segments(s@),
{
    let cs = chars_of(s);
    let mut done: Vec<Vec<char>> = Vec::new();
    let mut cur: Vec<char> = Vec::new();
    let n = cs.len();
    for i in 0..n
        invariant
            n == cs@.len(),
            cs@ == s@,
            (views(done@), cur@) == segment_state(cs@.take(i as int)),
    {
        let ghost prev = cs@.take(i as int);
        assert(cs@.take(i + 1).drop_last() =~= prev);
        let c = cs[i];
        cur.push(c);
        if c == '\n' {
            done.push(cur);
            cur = Vec::new();
            assert(views(done@) =~= segment_state(prev).0.push(segment_state(prev).1.push('\n')));
        }
    }
    assert(cs@.take(n as int) =~= cs@);
    if cur.len() > 0 {
        done.push(cur);
        assert(views(done@) =~= segments(s@));
    }
    done
}

/// The first `n` characters of `v`.
fn prefix(v: &Vec<char>, n: usize) -> (r: Vec<char>)
    requires
        n <= v@.len(),
    ensures
        r@ == v@.take(n as int),
{
    let mut r: Vec<char> = Vec::new();
    for i in 0..n
        invariant
            n <= v@.len(),
            r@ == v@.take(i as int),
    {
        r.push(v[i]);
        assert(r@ =~= v@.take(i + 1));
    }
    r
}

/// The text of a line without its ending.
fn text_of(l: &Vec<char>) -> (r: Vec<char>)
    ensures
        r@ == line_text(l@),
{
    let mut hi = l.len();
    if hi > 0 && l[hi - 1] == '\n' {
        hi = hi - 1;
        if hi > 0 && l[hi - 1] == '\r' {
            hi = hi - 1;
        }
    }
    let r = prefix(l, hi);
    assert(l@.len() > 0 && l@.last() == '\n' ==> l@.drop_last() =~= l@.take(l@.len() - 1));
    assert(l@.len() > 0 && l@.last() == '\n' && l@.len() > 1 && l@[l@.len() - 2] == '\r'
        ==> l@.drop_last().drop_last() =~= l@.take(l@.len() - 2));
    assert(l@.take(l@.len() as int) =~= l@);
    r
}

/// The key of each line: its text, trimmed and lower-cased.
pub fn line_keys(lines: &Vec<Vec<char>>) -> (r: Vec<String>)
    ensures
        string_views(r@) == keys_of(views(lines@)),
{
    let mut keys: Vec<String> = Vec::new();
    for i in 0..lines.len()
        invariant
            string_views(keys@) == keys_of(views(lines@)).take(i as int),
    {
        let ghost before = string_views(keys@);
        let t = text_of(&lines[i]);
        let k = normalize_line(&t);
        assert(k@ == keys_of(views(lines@))[i as int]);
        keys.push(k);
        assert(string_views(keys@) =~= before.push(k@));
        assert(keys_of(views(lines@)).take(i + 1) =~= before.push(k@));
    }
    assert(keys_of(views(lines@)).take(lines@.len() as int) =~= keys_of(views(lines@)));
    keys
}

/// Appends lines `lo..hi` as they are.
fn push_lines(out: &mut String, lines: &Vec<Vec<char>>, lo: usize, hi: usize)
    requires
        lo <= hi <= lines@.len(),
    ensures
        final(out)@ == old(out)@ + concat(views(lines@).subrange(lo as int, hi as int)),
{
    let ghost ls = views(lines@);
    let mut i = lo;
    assert(ls.subrange(lo as int, lo as int) =~= Seq::<Seq<char>>::empty());
    while i < hi
        invariant
            lo <= i <= hi <= lines@.len(),
            ls == views(lines@),
            out@ == old(out)@ + concat(ls.subrange(lo as int, i as int)),
        decreases hi - i,
    {
        let l = &lines[i];
        push_chars(out, l, 0, l.len());
        assert(ls.subrange(lo as int, i + 1).drop_last() =~= ls.subrange(lo as int, i as int));
        assert(l@.subrange(0, l@.len() as int) =~= l@);
        i = i + 1;
        assert(out@ =~= old(out)@ + concat(ls.subrange(lo as int, i as int)));
    }
}

/// Splices `block` into `lines`, each compared by its key in `keys`: the
/// lines up to and including the first whose key is `start`, the block,
/// then the lines from the first later one whose key is `end`. Lines are
/// kept as they stand, endings included.
pub fn splice_lines(
    lines: &Vec<Vec<char>>,
    keys: &Vec<String>,
    start: &str,
    end: &str,
    block: &str,
) -> (r: Result<String, SpliceError>)
    requires
        lines@.len() == keys@.len(),
    ensures
        match r {
            Ok(out) => splice_by(views(lines@), string_views(keys@), start@, end@, block@) == Ok::<
                Seq<char>,
                SpliceError,
            >(out@),
            Err(e) => splice_by(views(lines@), string_views(keys@), start@, end@, block@) == Err::<
                Seq<char>,
                SpliceError,
            >(e),
        },
{
    let ghost ls = views(lines@);
    let start_m = String::from_str(start);
    let end_m = String::from_str(end);
    let s = match find_key(keys, 0, &start_m) {
        Some(s) => s,
        None => {
            return Err(SpliceError::StartMarkerNotFound);
        },
    };
    let n = lines.len();
    assert(s < n);
    let e = match find_key(keys, s + 1, &end_m) {
        Some(e) => e,
        None => {
            return Err(SpliceError::EndMarkerNotFound);
        },
    };
    let mut out = String::new();
    push_lines(&mut out, lines, 0, s + 1);
    push_str(&mut out, block);
    push_lines(&mut out, lines, e, n);
    assert(ls.subrange(0, s + 1) =~= ls.take(s + 1));
    assert(ls.subrange(e as int, ls.len() as int) =~= ls.skip(e as int));
    Ok(out)
}

/// Replaces the lines between the first line whose trimmed, lower-cased
/// text is `start` and the first later such line for `end` by
/// `built_template`; both marker lines stay. Every other line is copied as
/// it stands, its ending included.
pub fn replace_delimiter(file_content: &str, start: &str, end: &str, built_template: &str) -> (r:
    Result<String, SpliceError>)
    ensures
        match r {
            Ok(out) => splice(file_content@, start@, end@, built_template@) == Ok::<
                Seq<char>,
                SpliceError,
            >(out@),
            Err(e) => splice(file_content@, start@, end@, built_template@) == Err::<
                Seq<char>,
                SpliceError,
            >(e),
        },
{
    let lines = split_segments(file_content);
    let keys = line_keys(&lines);
    splice_lines(&lines, &keys, start, end, built_template)
}

/// The new content of a target file: in rewrite mode exactly the rendered
/// text, whatever the file held; otherwise the rendered text spliced
/// between the markers of the existing content.
pub fn target_content(rewrite: bool, existing: &str, start: &str, end: &str, rendered: &str) -> (r:
    Result<String, SpliceError>)
    ensures
        rewrite ==> (r matches Ok(out) && out@ == rendered@),
        !rewrite ==> match r {
            Ok(out) => splice(existing@, start@, end@, rendered@) == Ok::<Seq<char>, SpliceError>(
                out@,
            ),
            Err(e) => splice(existing@, start@, end@, rendered@) == Err::<Seq<char>, SpliceError>(
                e,
            ),
        },
{
    if rewrite {
        Ok(String::from_str(rendered))
    } else {
        replace_delimiter(existing, start, end, rendered)
    }
}


pub open spec fn no_newline(l: Seq<char>) -> bool {
    forall|i: int| 0 <= i < l.len() ==> l[i] != '\n'
}

/// Lines as `segments` gives them: none empty, a `\n` only at the end, and
/// every line but the last ended by one.
pub open spec fn well_split(ls: Seq<Seq<char>>) -> bool {
    forall|i: int|
        0 <= i < ls.len() ==> {
            &&& (#[trigger] ls[i]).len() > 0
            &&& no_newline(ls[i].drop_last())
            &&& (i < ls.len() - 1 ==> ls[i].last() == '\n')
        }
}

proof fn lemma_state_concat(a: Seq<char>, b: Seq<char>)
    requires
        segment_state(a).1.len() == 0,
    ensures
        segment_state(a + b) == (segment_state(a).0 + segment_state(b).0, segment_state(b).1),
    decreases b.len(),
{
    if b.len() == 0 {
        assert(a + b =~= a);
        assert(segment_state(a).0 + seq![] =~= segment_state(a).0);
    } else {
        assert((a + b).drop_last() =~= a + b.drop_last());
        lemma_state_concat(a, b.drop_last());
        let pa = segment_state(a).0;
        let pb = segment_state(b.drop_last());
        if b.last() == '\n' {
            assert((pa + pb.0).push(pb.1.push('\n')) =~= pa + pb.0.push(pb.1.push('\n')));
        }
    }
}

proof fn lemma_segments_after(a: Seq<char>, b: Seq<char>)
    requires
        segment_state(a).1.len() == 0,
    ensures
        segments(a + b) == segment_state(a).0 + segments(b),
{
    lemma_state_concat(a, b);
    let sb = segment_state(b);
    if sb.1.len() > 0 {
        assert((segment_state(a).0 + sb.0).push(sb.1) =~= segment_state(a).0 + sb.0.push(sb.1));
    }
}

proof fn lemma_state_of_plain(l: Seq<char>)
    requires
        no_newline(l),
    ensures
        segment_state(l) == (Seq::<Seq<char>>::empty(), l),
    decreases l.len(),
{
    if l.len() > 0 {
        lemma_state_of_plain(l.drop_last());
        assert(l.drop_last().push(l.last()) =~= l);
    }
}

proof fn lemma_state_of_line(l: Seq<char>)
    requires
        l.len() > 0,
        no_newline(l.drop_last()),
    ensures
        l.last() == '\n' ==> segment_state(l) == (seq![l], Seq::<char>::empty()),
        l.last() != '\n' ==> segment_state(l) == (Seq::<Seq<char>>::empty(), l),
{
    lemma_state_of_plain(l.drop_last());
    if l.last() == '\n' {
        assert(l.drop_last().push('\n') =~= l);
        assert(Seq::<Seq<char>>::empty().push(l) =~= seq![l]);
    } else {
        assert forall|i: int| 0 <= i < l.len() implies l[i] != '\n' by {
            if i < l.len() - 1 {
                assert(l[i] == l.drop_last()[i]);
            }
        }
        lemma_state_of_plain(l);
    }
}

/// Lines put one after the other split back into the same lines.
proof fn lemma_segments_concat(ls: Seq<Seq<char>>)
    requires
        well_split(ls),
    ensures
        segments(concat(ls)) == ls,
        ls.len() == 0 || ls.last().last() == '\n' ==> segment_state(concat(ls)) == (
            ls,
            Seq::<char>::empty(),
        ),
    decreases ls.len(),
{
    if ls.len() > 0 {
        let d = ls.drop_last();
        let l = ls.last();
        assert(ls[ls.len() - 1] == l);
        assert forall|i: int| 0 <= i < d.len() implies {
            &&& (#[trigger] d[i]).len() > 0
            &&& no_newline(d[i].drop_last())
            &&& (i < d.len() - 1 ==> d[i].last() == '\n')
        } by {
            assert(d[i] == ls[i]);
        }
        lemma_segments_concat(d);
        if d.len() > 0 {
            assert(d.last() == ls[d.len() - 1]);
        }
        lemma_state_concat(concat(d), l);
        lemma_state_of_line(l);
        assert(d + seq![l] =~= ls);
        assert(d + Seq::<Seq<char>>::empty() =~= d);
    }
}

proof fn lemma_segments_well_split(s: Seq<char>)
    ensures
        forall|i: int|
            0 <= i < segment_state(s).0.len() ==> {
                &&& (#[trigger] segment_state(s).0[i]).len() > 0
                &&& segment_state(s).0[i].last() == '\n'
                &&& no_newline(segment_state(s).0[i].drop_last())
            },
        no_newline(segment_state(s).1),
        well_split(segments(s)),
    decreases s.len(),
{
    if s.len() > 0 {
        lemma_segments_well_split(s.drop_last());
        let prev = segment_state(s.drop_last());
        if s.last() == '\n' {
            assert(prev.1.push('\n').drop_last() =~= prev.1);
            assert forall|i: int| 0 <= i < segment_state(s).0.len() implies {
                &&& (#[trigger] segment_state(s).0[i]).len() > 0
                &&& segment_state(s).0[i].last() == '\n'
                &&& no_newline(segment_state(s).0[i].drop_last())
            } by {
                if i < prev.0.len() {
                    assert(segment_state(s).0[i] == prev.0[i]);
                }
            }
        }
    }
    let st = segment_state(s);
    if st.1.len() > 0 {
        let ls = st.0.push(st.1);
        assert forall|i: int| 0 <= i < ls.len() implies {
            &&& (#[trigger] ls[i]).len() > 0
            &&& no_newline(ls[i].drop_last())
            &&& (i < ls.len() - 1 ==> ls[i].last() == '\n')
        } by {
            if i < st.0.len() {
                assert(ls[i] == st.0[i]);
            }
        }
    }
}

proof fn lemma_first_match_found(ls: Seq<Seq<char>>, from: int, m: Seq<char>, k: int)
    requires
        first_match(ls, from, m) == Some(k),
    ensures
        0 <= from <= k < ls.len(),
        ls[k] == m,
        forall|j: int| from <= j < k ==> #[trigger] ls[j] != m,
    decreases ls.len() - from,
{
    if ls[from] != m {
        lemma_first_match_found(ls, from + 1, m, k);
    }
}

proof fn lemma_first_match_at(ls: Seq<Seq<char>>, from: int, m: Seq<char>, k: int)
    requires
        0 <= from <= k < ls.len(),
        ls[k] == m,
        forall|j: int| from <= j < k ==> #[trigger] ls[j] != m,
    ensures
        first_match(ls, from, m) == Some(k),
    decreases k - from,
{
    if from < k {
        lemma_first_match_at(ls, from + 1, m, k);
    }
}

proof fn lemma_first_match_none(ls: Seq<Seq<char>>, from: int, m: Seq<char>)
    requires
        0 <= from,
        forall|j: int| from <= j < ls.len() ==> #[trigger] ls[j] != m,
    ensures
        first_match(ls, from, m) is None,
    decreases ls.len() - from,
{
    if from < ls.len() {
        lemma_first_match_none(ls, from + 1, m);
    }
}

/// Splicing again with the same markers and block changes nothing, provided
/// the block ends with a line ending (or is empty) and none of its lines is
/// an end marker.
pub proof fn lemma_splice_idempotent(
    content: Seq<char>,
    start: Seq<char>,
    end: Seq<char>,
    block: Seq<char>,
)
    requires
        splice(content, start, end, block) is Ok,
        block.len() == 0 || block.last() == '\n',
        forall|i: int|
            0 <= i < segments(block).len() ==> normalized(line_text(#[trigger] segments(block)[i]))
                != end,
    ensures
        splice(splice(content, start, end, block)->Ok_0, start, end, block) == splice(
            content,
            start,
            end,
            block,
        ),
{
    let ls = segments(content);
    let ks = keys_of(ls);
    let s = first_match(ks, 0, start)->0;
    let e = first_match(ks, s + 1, end)->0;
    lemma_first_match_found(ks, 0, start, s);
    lemma_first_match_found(ks, s + 1, end, e);
    lemma_segments_well_split(content);
    let a = ls.take(s + 1);
    let c = ls.skip(e);
    assert forall|i: int| 0 <= i < a.len() implies {
        &&& (#[trigger] a[i]).len() > 0
        &&& no_newline(a[i].drop_last())
        &&& (i < a.len() - 1 ==> a[i].last() == '\n')
    } by {
        assert(a[i] == ls[i]);
    }
    assert(a.last() == ls[s]);
    assert forall|i: int| 0 <= i < c.len() implies {
        &&& (#[trigger] c[i]).len() > 0
        &&& no_newline(c[i].drop_last())
        &&& (i < c.len() - 1 ==> c[i].last() == '\n')
    } by {
        assert(c[i] == ls[e + i]);
    }
    lemma_segments_concat(a);
    lemma_segments_concat(c);
    let lb = segment_state(block).0;
    assert(segment_state(block).1.len() == 0);
    assert(segments(block) == lb);
    lemma_state_concat(concat(a), block);
    lemma_segments_after(concat(a) + block, concat(c));
    let r1 = concat(a) + block + concat(c);
    let ls2 = a + lb + c;
    let ks2 = keys_of(ls2);
    assert(segments(r1) == ls2);
    assert forall|j: int| 0 <= j < s implies #[trigger] ks2[j] != start by {
        assert(ls2[j] == ls[j] && ks[j] == normalized(line_text(ls[j])));
    }
    assert(ls2[s] == ls[s] && ks[s] == normalized(line_text(ls[s])));
    lemma_first_match_at(ks2, 0, start, s);
    let e2 = s + 1 + lb.len();
    assert forall|j: int| s + 1 <= j < e2 implies #[trigger] ks2[j] != end by {
        assert(ls2[j] == lb[j - s - 1]);
    }
    assert(ls2[e2] == ls[e] && ks[e] == normalized(line_text(ls[e])));
    lemma_first_match_at(ks2, s + 1, end, e2);
    assert(ls2.take(s + 1) =~= a);
    assert(ls2.skip(e2) =~= c);
}

/// With no start marker line the splice fails with `StartMarkerNotFound`,
/// whether or not an end marker line is there.
pub proof fn lemma_splice_without_start(
    content: Seq<char>,
    start: Seq<char>,
    end: Seq<char>,
    block: Seq<char>,
)
    requires
        forall|i: int|
            0 <= i < segments(content).len() ==> normalized(
                line_text(#[trigger] segments(content)[i]),
            ) != start,
    ensures
        splice(content, start, end, block) == Err::<Seq<char>, SpliceError>(
            SpliceError::StartMarkerNotFound,
        ),
{
    let ks = keys_of(segments(content));
    assert forall|j: int| 0 <= j < ks.len() implies #[trigger] ks[j] != start by {
        assert(ks[j] == normalized(line_text(segments(content)[j])));
    }
    lemma_first_match_none(ks, 0, start);
}

/// With the first start marker line at `s` and no end marker line after it
/// the splice fails with `EndMarkerNotFound`.
pub proof fn lemma_splice_without_end(
    content: Seq<char>,
    start: Seq<char>,
    end: Seq<char>,
    block: Seq<char>,
    s: int,
)
    requires
        0 <= s < segments(content).len(),
        normalized(line_text(segments(content)[s])) == start,
        forall|i: int|
            0 <= i < s ==> normalized(line_text(#[trigger] segments(content)[i])) != start,
        forall|i: int|
            s < i < segments(content).len() ==> normalized(
                line_text(#[trigger] segments(content)[i]),
            ) != end,
    ensures
        splice(content, start, end, block) == Err::<Seq<char>, SpliceError>(
            SpliceError::EndMarkerNotFound,
        ),
{
    let ls = segments(content);
    let ks = keys_of(ls);
    assert forall|j: int| 0 <= j < s implies #[trigger] ks[j] != start by {
        assert(ks[j] == normalized(line_text(ls[j])));
    }
    assert(ks[s] == normalized(line_text(ls[s])));
    lemma_first_match_at(ks, 0, start, s);
    assert forall|j: int| s + 1 <= j < ks.len() implies #[trigger] ks[j] != end by {
        assert(ks[j] == normalized(line_text(ls[j])));
    }
    lemma_first_match_none(ks, s + 1, end);
}

/// With both marker lines the splice succeeds: the lines up to the start
/// marker and from the end marker are kept as they stand, and whatever stood
/// between them (any lines without an end marker) makes no difference.
pub proof fn lemma_splice_keeps_outside(
    content: Seq<char>,
    other: Seq<char>,
    start: Seq<char>,
    end: Seq<char>,
    block: Seq<char>,
    s: int,
    e: int,
    between: Seq<Seq<char>>,
)
    requires
        first_match(keys_of(segments(content)), 0, start) == Some(s),
        first_match(keys_of(segments(content)), s + 1, end) == Some(e),
        segments(other) == segments(content).take(s + 1) + between + segments(content).skip(e),
        forall|i: int| 0 <= i < between.len() ==> normalized(line_text(#[trigger] between[i])) != end,
    ensures
        splice(content, start, end, block) == Ok::<Seq<char>, SpliceError>(
            concat(segments(content).take(s + 1)) + block + concat(segments(content).skip(e)),
        ),
        splice(other, start, end, block) == splice(content, start, end, block),
{
    let ls = segments(content);
    let ls2 = segments(other);
    let ks = keys_of(ls);
    let ks2 = keys_of(ls2);
    lemma_first_match_found(ks, 0, start, s);
    lemma_first_match_found(ks, s + 1, end, e);
    assert forall|j: int| 0 <= j < s implies #[trigger] ks2[j] != start by {
        assert(ls2[j] == ls[j] && ks[j] == normalized(line_text(ls[j])));
    }
    assert(ls2[s] == ls[s] && ks[s] == normalized(line_text(ls[s])));
    lemma_first_match_at(ks2, 0, start, s);
    let e2 = s + 1 + between.len();
    assert forall|j: int| s + 1 <= j < e2 implies #[trigger] ks2[j] != end by {
        assert(ls2[j] == between[j - s - 1]);
    }
    assert(ls2[e2] == ls[e] && ks[e] == normalized(line_text(ls[e])));
    lemma_first_match_at(ks2, s + 1, end, e2);
    assert(ls2.take(s + 1) =~= ls.take(s + 1));
    assert(ls2.skip(e2) =~= ls.skip(e));
}

} // verus!
