//! Checking and repairing the SVG text that a StarVector model generates, and the
//! decisions of the in-process StarVector runtime.
use vstd::prelude::*;

use crate::models::{label_text, opt_text, ModelKind};
use crate::text::{
    ascii_lower, ascii_lowered, concat_str, decimal_text, extend_range, find_exec, find_from, is_space, lacks,
    lemma_find_from_bounds, lemma_find_from_is, lemma_find_from_skip, lemma_rfind_below_bounds,
    lemma_trimmed_lacks, lemma_trimmed_unchanged, lower_char, occurs_at, rfind_below, rfind_exec,
    space, string_from_chars, string_from_range, to_chars, trim_bounds, trimmed,
};

verus! {

/// How the scan of a tag that opens at some `<` ends.
pub enum TagScan {
    /// At this index stands the `>` that closes the tag outside any quoted value.
    Closed(int),
    /// At this index a new `<` starts while a quoted value is still open.
    Nested(int),
    /// The text ends before either happens.
    Unterminated,
}

/// Scans `s` from index `i` for the end of a tag; `quote` is the quote character of
/// the attribute value that is open at `i`, if any.
pub open spec fn scan_tag(s: Seq<char>, i: int, quote: Option<char>) -> TagScan
    decreases s.len() - i,
{
    if i < 0 || i >= s.len() {
        TagScan::Unterminated
    } else {
        let ch = s[i];
        match quote {
            Some(q) => if ch == q {
                scan_tag(s, i + 1, None)
            } else if ch == '<' {
                TagScan::Nested(i)
            } else {
                scan_tag(s, i + 1, quote)
            },
            None => if ch == '"' || ch == '\'' {
                scan_tag(s, i + 1, Some(ch))
            } else if ch == '>' {
                TagScan::Closed(i)
            } else {
                scan_tag(s, i + 1, None)
            },
        }
    }
}

/// A scan ends at a `>` or a `<` at or after where it started.
pub proof fn lemma_scan_tag_bounds(s: Seq<char>, i: int, quote: Option<char>)
    ensures
        scan_tag(s, i, quote) matches TagScan::Closed(e) ==> i <= e < s.len() && s[e] == '>',
        scan_tag(s, i, quote) matches TagScan::Nested(n) ==> i <= n < s.len() && s[n] == '<',
    decreases s.len() - i,
{
    if i < 0 || i >= s.len() {
    } else {
        let ch = s[i];
        match quote {
            Some(q) => if ch == q {
                lemma_scan_tag_bounds(s, i + 1, None);
            } else if ch != '<' {
                lemma_scan_tag_bounds(s, i + 1, quote);
            },
            None => if ch == '"' || ch == '\'' {
                lemma_scan_tag_bounds(s, i + 1, Some(ch));
            } else if ch != '>' {
                lemma_scan_tag_bounds(s, i + 1, None);
            },
        }
    }
}

/// The one-character pattern `<`.
pub open spec fn lt() -> Seq<char> {
    seq!['<']
}

/// The one-character pattern `>`.
pub open spec fn gt() -> Seq<char> {
    seq!['>']
}

/// What `remove_malformed_tags` produces for the part of `s` from `cursor` on.
pub open spec fn cleaned_from(s: Seq<char>, cursor: int) -> Seq<char>
    decreases s.len() - cursor,
{
    if cursor < 0 || cursor > s.len() {
        Seq::empty()
    } else {
        match find_from(s, lt(), cursor) {
            None => s.subrange(cursor, s.len() as int),
            Some(start) => {
                proof {
                    lemma_find_from_bounds(s, lt(), cursor);
                    lemma_scan_tag_bounds(s, start + 1, None);
                }
                match scan_tag(s, start + 1, None) {
                    TagScan::Closed(e) => s.subrange(cursor, e + 1) + cleaned_from(s, e + 1),
                    TagScan::Nested(n) => s.subrange(cursor, start) + cleaned_from(s, n),
                    TagScan::Unterminated => s.subrange(cursor, s.len() as int),
                }
            },
        }
    }
}

/// What `remove_malformed_tags` produces for `s`.
pub open spec fn cleaned(s: Seq<char>) -> Seq<char> {
    cleaned_from(s, 0)
}

/// The exec form of `scan_tag` from index `i` with no quote open: `Some((true, e))` for
/// `Closed(e)`, `Some((false, n))` for `Nested(n)`, `None` for `Unterminated`.
fn scan_tag_exec(v: &Vec<char>, i: usize) -> (r: Option<(bool, usize)>)
    ensures
        match r {
            Some((true, e)) => scan_tag(v@, i as int, None) == TagScan::Closed(e as int),
            Some((false, n)) => scan_tag(v@, i as int, None) == TagScan::Nested(n as int),
            None => scan_tag(v@, i as int, None) == TagScan::Unterminated,
        },
{
    let mut quote: Option<char> = None;
    let mut k = i;
    while k < v.len()
        invariant
            i <= k,
            scan_tag(v@, k as int, quote) == scan_tag(v@, i as int, None),
        decreases v.len() - k,
    {
        let ch = v[k];
        match quote {
            Some(q) => {
                if ch == q {
                    quote = None;
                } else if ch == '<' {
                    return Some((false, k));
                }
            },
            None => {
                if ch == '"' || ch == '\'' {
                    quote = Some(ch);
                } else if ch == '>' {
                    return Some((true, k));
                }
            },
        }
        k = k + 1;
    }
    None
}

/// Drops only an unterminated element when the decoder emits a new `<` before closing
/// a quoted attribute. Valid tags and all following elements remain, once each.
pub fn remove_malformed_tags(raw: &str) -> (clean: String)
    ensures
        clean@ == cleaned(raw@),
{
    let v = to_chars(raw);
    let lt_pat: Vec<char> = vec!['<'];
    assert(lt_pat@ == lt());
    let mut clean: Vec<char> = Vec::new();
    let mut cursor: usize = 0;
    loop
        invariant
            cursor <= v.len(),
            v@ == raw@,
            lt_pat@ == lt(),
            clean@ + cleaned_from(v@, cursor as int) == cleaned(v@),
        decreases v.len() - cursor,
    {
        match find_exec(&v, &lt_pat, cursor) {
            None => {
                extend_range(&mut clean, &v, cursor, v.len());
                return string_from_chars(&clean);
            },
            Some(start) => {
                proof {
                    lemma_find_from_bounds(v@, lt(), cursor as int);
                }
                let ghost before = clean@;
                extend_range(&mut clean, &v, cursor, start);
                match scan_tag_exec(&v, start + 1) {
                    Some((true, end)) => {
                        proof {
                            lemma_scan_tag_bounds(v@, start + 1, None);
                        }
                        extend_range(&mut clean, &v, start, end + 1);
                        assert(v@.subrange(cursor as int, start as int) + v@.subrange(
                            start as int,
                            end + 1,
                        ) == v@.subrange(cursor as int, end + 1));
                        assert(clean@ == before + v@.subrange(cursor as int, end + 1));
                        cursor = end + 1;
                    },
                    Some((false, next)) => {
                        proof {
                            lemma_scan_tag_bounds(v@, start + 1, None);
                        }
                        cursor = next;
                    },
                    None => {
                        extend_range(&mut clean, &v, start, v.len());
                        assert(v@.subrange(cursor as int, start as int) + v@.subrange(
                            start as int,
                            v@.len() as int,
                        ) == v@.subrange(cursor as int, v@.len() as int));
                        return string_from_chars(&clean);
                    },
                }
            },
        }
    }
}

/// Why a model's SVG text was refused.
#[derive(Debug, Clone, Copy, PartialEq, Eq, Structural)]
pub enum SvgError {
    /// No `<svg` element opens the text, or no element is left open at its start.
    NoSvgRoot,
    /// The text has no `</svg>` and may not be repaired.
    Incomplete,
    /// Nothing in the text ends with `>`.
    NoCompleteElement,
    /// The text holds scripts, foreign objects, images, `javascript:` or `onload=`.
    ForbiddenContent,
    /// The text is not well-formed XML.
    InvalidXml,
    /// The root element of the document is not `svg`.
    RootNotSvg,
}

/// The message of an SVG error.
pub open spec fn svg_error_text(e: SvgError) -> Seq<char> {
    match e {
        SvgError::NoSvgRoot => "model output has no SVG root"@,
        SvgError::Incomplete => "model output is incomplete (missing </svg>)"@,
        SvgError::NoCompleteElement => "model output has no complete SVG element"@,
        SvgError::ForbiddenContent => "model output contains forbidden SVG content"@,
        SvgError::InvalidXml => "model output is not valid XML"@,
        SvgError::RootNotSvg => "model output root is not SVG"@,
    }
}

impl SvgError {
    /// The message shown to users for this error.
    pub fn message(&self) -> (m: &'static str)
        ensures
            m@ == svg_error_text(*self),
    {
        match self {
            SvgError::NoSvgRoot => "model output has no SVG root",
            SvgError::Incomplete => "model output is incomplete (missing </svg>)",
            SvgError::NoCompleteElement => "model output has no complete SVG element",
            SvgError::ForbiddenContent => "model output contains forbidden SVG content",
            SvgError::InvalidXml => "model output is not valid XML",
            SvgError::RootNotSvg => "model output root is not SVG",
        }
    }
}

/// `s` without its leading whitespace.
pub open spec fn skip_space(s: Seq<char>) -> Seq<char>
    decreases s.len(),
{
    if s.len() > 0 && is_space(s[0]) {
        skip_space(s.drop_first())
    } else {
        s
    }
}

/// The longest prefix of `s` without whitespace.
pub open spec fn take_word(s: Seq<char>) -> Seq<char>
    decreases s.len(),
{
    if s.len() > 0 && !is_space(s[0]) {
        seq![s[0]] + take_word(s.drop_first())
    } else {
        Seq::empty()
    }
}

/// The first whitespace-separated word of `s`, empty when there is none
/// (`split_whitespace().next().unwrap_or_default()`).
pub open spec fn first_word(s: Seq<char>) -> Seq<char> {
    take_word(skip_space(s))
}

/// The name `svg`.
pub open spec fn svg_name() -> Seq<char> {
    seq!['s', 'v', 'g']
}

/// How one tag (the trimmed text between `<` and `>`) changes the stack of open elements:
/// comments, declarations, processing instructions and self-closing tags change nothing,
/// a closing tag pops the innermost element when it names it, an opening tag pushes its name.
pub open spec fn tag_effect(tag: Seq<char>, open: Seq<Seq<char>>) -> Seq<Seq<char>> {
    if tag.len() == 0 || tag[0] == '!' || tag[0] == '?' || tag.last() == '/' {
        open
    } else if tag[0] == '/' {
        if open.len() > 0 && open.last() == first_word(tag.drop_first()) {
            open.drop_last()
        } else {
            open
        }
    } else if first_word(tag).len() > 0 {
        open.push(first_word(tag))
    } else {
        open
    }
}

/// The stack of open elements after the tags of `c` from `offset` on, starting from `open`.
pub open spec fn open_stack(c: Seq<char>, offset: int, open: Seq<Seq<char>>) -> Seq<Seq<char>>
    decreases c.len() - offset,
{
    if offset < 0 || offset > c.len() {
        open
    } else {
        match find_from(c, lt(), offset) {
            None => open,
            Some(start) => match find_from(c, gt(), start) {
                None => open,
                Some(end) => {
                    proof {
                        lemma_find_from_bounds(c, lt(), offset);
                        lemma_find_from_bounds(c, gt(), start);
                    }
                    open_stack(c, end + 1, tag_effect(trimmed(c.subrange(start + 1, end)), open))
                },
            },
        }
    }
}

/// The stack of elements that `c` leaves open.
pub open spec fn open_elements(c: Seq<char>) -> Seq<Seq<char>> {
    open_stack(c, 0, Seq::empty())
}

/// The tag `</name>`.
pub open spec fn close_tag(name: Seq<char>) -> Seq<char> {
    seq!['<', '/'] + name + seq!['>']
}

/// Closing tags for the elements of `open`, innermost first.
pub open spec fn closers(open: Seq<Seq<char>>) -> Seq<char>
    decreases open.len(),
{
    if open.len() == 0 {
        Seq::empty()
    } else {
        close_tag(open.last()) + closers(open.drop_last())
    }
}

/// `s` up to and including its last `>`, if it has one.
pub open spec fn complete_part(s: Seq<char>) -> Option<Seq<char>> {
    match rfind_below(s, gt(), s.len() as int) {
        None => None,
        Some(end) => Some(s.subrange(0, end + 1)),
    }
}

/// What `balance_svg_tags` returns for `s`.
pub open spec fn balanced(s: Seq<char>) -> Result<Seq<char>, SvgError> {
    match complete_part(s) {
        None => Err(SvgError::NoCompleteElement),
        Some(complete) => {
            let open = open_elements(complete);
            if open.len() > 0 && open[0] == svg_name() {
                Ok(complete + closers(open))
            } else {
                Err(SvgError::NoSvgRoot)
            }
        },
    }
}

proof fn lemma_skip_space_suffix(s: Seq<char>, k: int)
    requires
        0 <= k <= s.len(),
        forall|j: int| 0 <= j < k ==> is_space(s[j]),
    ensures
        skip_space(s) == skip_space(s.subrange(k, s.len() as int)),
    decreases k,
{
    if k > 0 {
        assert(s.drop_first().subrange(k - 1, s.drop_first().len() as int) =~= s.subrange(
            k,
            s.len() as int,
        ));
        lemma_skip_space_suffix(s.drop_first(), k - 1);
    } else {
        assert(s.subrange(0, s.len() as int) =~= s);
    }
}

proof fn lemma_take_word_prefix(s: Seq<char>, k: int)
    requires
        0 <= k <= s.len(),
        forall|j: int| 0 <= j < k ==> !is_space(s[j]),
        k == s.len() || is_space(s[k]),
    ensures
        take_word(s) == s.subrange(0, k),
    decreases k,
{
    if k > 0 {
        lemma_take_word_prefix(s.drop_first(), k - 1);
        assert(seq![s[0]] + s.drop_first().subrange(0, k - 1) =~= s.subrange(0, k));
    }
}

proof fn lemma_occurs_char(s: Seq<char>, c: char, i: int)
    ensures
        occurs_at(s, seq![c], i) <==> (0 <= i < s.len() && s[i] == c),
{
    if 0 <= i < s.len() && s[i] == c {
        assert(s.subrange(i, i + 1) =~= seq![c]);
    }
    if occurs_at(s, seq![c], i) {
        assert(s.subrange(i, i + 1)[0] == c);
    }
}

/// Bounds `(a, b)` such that `v[a..b]` is the first word of `v[lo..hi]`.
fn word_bounds(v: &Vec<char>, lo: usize, hi: usize) -> (r: (usize, usize))
    requires
        lo <= hi <= v.len(),
    ensures
        lo <= r.0 <= r.1 <= hi,
        v@.subrange(r.0 as int, r.1 as int) == first_word(v@.subrange(lo as int, hi as int)),
{
    let mut a = lo;
    while a < hi && space(v[a])
        invariant
            lo <= a <= hi <= v.len(),
            forall|j: int| lo <= j < a ==> is_space(v@[j]),
        decreases hi - a,
    {
        a = a + 1;
    }
    let mut b = a;
    while b < hi && !space(v[b])
        invariant
            lo <= a <= b <= hi <= v.len(),
            forall|j: int| a <= j < b ==> !is_space(v@[j]),
        decreases hi - b,
    {
        b = b + 1;
    }
    proof {
        let s = v@.subrange(lo as int, hi as int);
        lemma_skip_space_suffix(s, a - lo);
        assert(s.subrange(a - lo, s.len() as int) =~= v@.subrange(a as int, hi as int));
        let t = v@.subrange(a as int, hi as int);
        lemma_take_word_prefix(t, b - a);
        assert(t.subrange(0, b - a) =~= v@.subrange(a as int, b as int));
    }
    (a, b)
}

/// Whether `v[lo..hi]` and `w` hold the same characters.
fn range_equals(v: &Vec<char>, lo: usize, hi: usize, w: &Vec<char>) -> (r: bool)
    requires
        lo <= hi <= v.len(),
    ensures
        r == (v@.subrange(lo as int, hi as int) == w@),
{
    if hi - lo != w.len() {
        return false;
    }
    let mut k: usize = 0;
    while k < w.len()
        invariant
            hi - lo == w.len(),
            lo <= hi <= v.len(),
            k <= w.len(),
            forall|j: int| 0 <= j < k ==> v@[lo + j] == w@[j],
        decreases w.len() - k,
    {
        if v[lo + k] != w[k] {
            assert(v@.subrange(lo as int, hi as int)[k as int] != w@[k as int]);
            return false;
        }
        k = k + 1;
    }
    assert(v@.subrange(lo as int, hi as int) =~= w@);
    true
}

/// A vector holding `v[lo..hi]`.
fn range_vec(v: &Vec<char>, lo: usize, hi: usize) -> (w: Vec<char>)
    requires
        lo <= hi <= v.len(),
    ensures
        w@ == v@.subrange(lo as int, hi as int),
{
    let mut w: Vec<char> = Vec::new();
    extend_range(&mut w, v, lo, hi);
    w
}

/// Applies the tag `c[ta..tb]` to the stack `open` (see `tag_effect`).
fn apply_tag(c: &Vec<char>, ta: usize, tb: usize, open: &mut Vec<Vec<char>>)
    requires
        ta <= tb <= c.len(),
    ensures
        final(open)@.map_values(|w: Vec<char>| w@) == tag_effect(c@.subrange(ta as int, tb as int), old(open)@.map_values(|w: Vec<char>| w@)),
{
    let ghost tag = c@.subrange(ta as int, tb as int);
    if ta == tb || c[ta] == '!' || c[ta] == '?' || c[tb - 1] == '/' {
        return;
    }
    if c[ta] == '/' {
        let (wa, wb) = word_bounds(c, ta + 1, tb);
        assert(c@.subrange(ta + 1, tb as int) =~= tag.drop_first());
        let n = open.len();
        if n > 0 && range_equals(c, wa, wb, &open[n - 1]) {
            let ghost before = open@.map_values(|w: Vec<char>| w@);
            open.pop();
            assert(open@.map_values(|w: Vec<char>| w@) =~= before.drop_last());
        }
    } else {
        let (wa, wb) = word_bounds(c, ta, tb);
        if wa < wb {
            let word = range_vec(c, wa, wb);
            let ghost before = open@.map_values(|w: Vec<char>| w@);
            open.push(word);
            assert(open@.map_values(|w: Vec<char>| w@) =~= before.push(word@));
        }
    }
}

/// The stack of elements that `complete` leaves open (see `open_elements`).
fn open_elements_exec(complete: &Vec<char>) -> (open: Vec<Vec<char>>)
    ensures
        open@.map_values(|w: Vec<char>| w@) == open_elements(complete@),
{
    let gt_pat: Vec<char> = vec!['>'];
    let lt_pat: Vec<char> = vec!['<'];
    assert(gt_pat@ == gt());
    assert(lt_pat@ == lt());
    let mut open: Vec<Vec<char>> = Vec::new();
    let mut offset: usize = 0;
    assert(open@.map_values(|w: Vec<char>| w@) =~= Seq::<Seq<char>>::empty());
    loop
        invariant
            offset <= complete.len(),
            gt_pat@ == gt(),
            lt_pat@ == lt(),
            open_stack(complete@, offset as int, open@.map_values(|w: Vec<char>| w@)) == open_elements(complete@),
        ensures
            open@.map_values(|w: Vec<char>| w@) == open_elements(complete@),
        decreases complete.len() - offset,
    {
        let start = match find_exec(complete, &lt_pat, offset) {
            None => {
                break;
            },
            Some(start) => start,
        };
        proof {
            lemma_find_from_bounds(complete@, lt(), offset as int);
        }
        let close = match find_exec(complete, &gt_pat, start) {
            None => {
                break;
            },
            Some(close) => close,
        };
        proof {
            lemma_find_from_bounds(complete@, gt(), start as int);
            lemma_occurs_char(complete@, '<', start as int);
            lemma_occurs_char(complete@, '>', close as int);
        }
        let (ta, tb) = trim_bounds(complete, start + 1, close);
        apply_tag(complete, ta, tb, &mut open);
        offset = close + 1;
    }
    open
}

/// Completes a truncated SVG text: cuts it after its last `>` and appends closing tags
/// for the elements that are still open there, innermost first.
pub fn balance_svg_tags(raw: &str) -> (res: Result<String, SvgError>)
    ensures
        match res {
            Ok(s) => balanced(raw@) == Ok::<Seq<char>, SvgError>(s@),
            Err(e) => balanced(raw@) == Err::<Seq<char>, SvgError>(e),
        },
{
    let v = to_chars(raw);
    let gt_pat: Vec<char> = vec!['>'];
    assert(gt_pat@ == gt());
    let end = match rfind_exec(&v, &gt_pat, v.len()) {
        None => return Err(SvgError::NoCompleteElement),
        Some(end) => end,
    };
    proof {
        lemma_rfind_below_bounds(v@, gt(), v@.len() as int);
    }
    let complete = range_vec(&v, 0, end + 1);
    let mut open = open_elements_exec(&complete);
    let ghost stack = open@.map_values(|w: Vec<char>| w@);
    assert(stack == open_elements(complete@));
    let svg_pat: Vec<char> = vec!['s', 'v', 'g'];
    assert(svg_pat@ == svg_name());
    if open.len() > 0 {
        assert(stack[0] == open@[0]@);
        assert(open[0]@.subrange(0, open[0]@.len() as int) =~= open[0]@);
    }
    if open.len() == 0 || !range_equals(&open[0], 0, open[0].len(), &svg_pat) {
        return Err(SvgError::NoSvgRoot);
    }
    assert(open[0]@.subrange(0, open[0]@.len() as int) =~= open[0]@);
    let mut out = complete;
    let ghost complete_view = out@;
    while open.len() > 0
        invariant
            out@ + closers(open@.map_values(|w: Vec<char>| w@)) == complete_view + closers(stack),
        decreases open.len(),
    {
        let ghost before_open = open@.map_values(|w: Vec<char>| w@);
        let ghost before_out = out@;
        let name = open.pop().unwrap();
        assert(open@.map_values(|w: Vec<char>| w@) =~= before_open.drop_last());
        out.push('<');
        out.push('/');
        extend_range(&mut out, &name, 0, name.len());
        out.push('>');
        assert(name@.subrange(0, name@.len() as int) =~= name@);
        assert(out@ =~= before_out + close_tag(name@));
        assert(before_out + closers(before_open) =~= before_out + close_tag(name@) + closers(
            open@.map_values(|w: Vec<char>| w@),
        ));
    }
    assert(out@ =~= complete_view + closers(stack));
    Ok(string_from_chars(&out))
}

/// The local name of the root element of `text` when `text` is a well-formed XML document
/// for `roxmltree`, and `None` when it is not.
pub uninterp spec fn xml_root_element_name(text: Seq<char>) -> Option<Seq<char>>;

/// The error type of `roxmltree`'s parser, carried through as an opaque value.
#[verifier::external_type_specification]
#[verifier::external_body]
pub struct ExXmlError(roxmltree::Error);

/// Parses `text` with `roxmltree::Document::parse` and reads the local name of the root
/// element (`Document::root_element`, `Node::tag_name`, `ExpandedName::name`). The contract
/// claims only that the outcome depends on the text alone, named by `xml_root_element_name`:
/// what counts as well-formed XML is not stated here.
#[verifier::external_body]
fn xml_root_name(text: &str) -> (res: Result<String, roxmltree::Error>)
    ensures
        match res {
            Ok(name) => xml_root_element_name(text@) == Some(name@),
            Err(_) => xml_root_element_name(text@) is None,
        },
{
    match roxmltree::Document::parse(text) {
        Ok(doc) => Ok(doc.root_element().tag_name().name().to_string()),
        Err(error) => Err(error),
    }
}

/// `<svg`
pub open spec fn svg_open() -> Seq<char> {
    seq!['<', 's', 'v', 'g']
}

/// `</svg>`
pub open spec fn svg_close() -> Seq<char> {
    seq!['<', '/', 's', 'v', 'g', '>']
}

/// `p` occurs somewhere in `s`.
pub open spec fn contains(s: Seq<char>, p: Seq<char>) -> bool {
    find_from(s, p, 0) is Some
}

/// The substrings that a model's SVG may not hold, in lower case.
pub open spec fn forbidden_patterns() -> Seq<Seq<char>> {
    seq![
        seq!['<', 's', 'c', 'r', 'i', 'p', 't'],
        seq!['<', 'f', 'o', 'r', 'e', 'i', 'g', 'n', 'o', 'b', 'j', 'e', 'c', 't'],
        seq!['<', 'i', 'm', 'a', 'g', 'e'],
        seq!['j', 'a', 'v', 'a', 's', 'c', 'r', 'i', 'p', 't', ':'],
        seq!['o', 'n', 'l', 'o', 'a', 'd', '='],
    ]
}

/// `s`, compared without regard to ASCII case, holds a forbidden substring.
pub open spec fn has_forbidden_content(s: Seq<char>) -> bool {
    exists|k: int|
        0 <= k < forbidden_patterns().len() && #[trigger] contains(
            ascii_lowered(s),
            forbidden_patterns()[k],
        )
}

fn forbidden_pattern(k: usize) -> (p: Vec<char>)
    requires
        k < 5,
    ensures
        p@ == forbidden_patterns()[k as int],
{
    if k == 0 {
        vec!['<', 's', 'c', 'r', 'i', 'p', 't']
    } else if k == 1 {
        vec!['<', 'f', 'o', 'r', 'e', 'i', 'g', 'n', 'o', 'b', 'j', 'e', 'c', 't']
    } else if k == 2 {
        vec!['<', 'i', 'm', 'a', 'g', 'e']
    } else if k == 3 {
        vec!['j', 'a', 'v', 'a', 's', 'c', 'r', 'i', 'p', 't', ':']
    } else {
        vec!['o', 'n', 'l', 'o', 'a', 'd', '=']
    }
}

/// Whether `s` holds forbidden content (see `has_forbidden_content`).
fn holds_forbidden_content(s: &str) -> (r: bool)
    ensures
        r == has_forbidden_content(s@),
{
    let v = to_chars(s);
    let mut lower: Vec<char> = Vec::new();
    let mut i: usize = 0;
    while i < v.len()
        invariant
            i <= v.len(),
            lower@ == ascii_lowered(v@.subrange(0, i as int)),
        decreases v.len() - i,
    {
        let c = lower_char(v[i]);
        lower.push(c);
        assert(v@.subrange(0, i + 1) == v@.subrange(0, i as int).push(v@[i as int]));
        assert(lower@ =~= ascii_lowered(v@.subrange(0, i + 1)));
        i = i + 1;
    }
    assert(v@.subrange(0, v@.len() as int) =~= v@);
    let mut k: usize = 0;
    while k < 5
        invariant
            k <= 5,
            lower@ == ascii_lowered(s@),
            forall|j: int| 0 <= j < k ==> !contains(ascii_lowered(s@), forbidden_patterns()[j]),
        decreases 5 - k,
    {
        let p = forbidden_pattern(k);
        if find_exec(&lower, &p, 0).is_some() {
            assert(contains(ascii_lowered(s@), forbidden_patterns()[k as int]));
            return true;
        }
        k = k + 1;
    }
    false
}

/// The SVG text that `validate_svg` checks: from the first `<svg` to the end of the last
/// `</svg>`, trimmed; without `</svg>`, the balanced rest of the text when repair is allowed.
/// A text whose last `</svg>` ends before its first `<svg` starts has no SVG root.
pub open spec fn svg_candidate(raw: Seq<char>, allow_tag_recovery: bool) -> Result<Seq<char>, SvgError> {
    match find_from(raw, svg_open(), 0) {
        None => Err(SvgError::NoSvgRoot),
        Some(start) => match rfind_below(raw, svg_close(), raw.len() as int) {
            Some(close) => if start > close + 6 {
                Err(SvgError::NoSvgRoot)
            } else {
                Ok(trimmed(raw.subrange(start, close + 6)))
            },
            None => if allow_tag_recovery {
                balanced(raw.subrange(start, raw.len() as int))
            } else {
                Err(SvgError::Incomplete)
            },
        },
    }
}

/// The document kept for a candidate that passed the content check, given whether it
/// parses as XML: the candidate itself when it does, else its repair (see `repaired`) when
/// repair is allowed.
pub open spec fn document_given(svg: Seq<char>, parses: bool, allow_tag_recovery: bool) -> Result<
    Seq<char>,
    SvgError,
> {
    if parses {
        Ok(svg)
    } else if allow_tag_recovery {
        repaired(svg)
    } else {
        Err(SvgError::InvalidXml)
    }
}

/// The repair of a text that is not XML: its malformed tags are dropped; when the cleaned
/// text still leaves elements open, they are closed (see `balanced`), and when it leaves
/// none open, it is kept as it is.
pub open spec fn repaired(svg: Seq<char>) -> Result<Seq<char>, SvgError> {
    let c = cleaned(svg);
    match complete_part(c) {
        Some(complete) => if open_elements(complete).len() == 0 {
            Ok(c)
        } else {
            balanced(c)
        },
        None => balanced(c),
    }
}

/// The outcome for a document, given the local name of its root element as the XML parser
/// reports it (`None` when it does not parse).
pub open spec fn root_checked(doc: Seq<char>, root: Option<Seq<char>>) -> Result<Seq<char>, SvgError> {
    match root {
        None => Err(SvgError::InvalidXml),
        Some(name) => if name == svg_name() {
            Ok(doc)
        } else {
            Err(SvgError::RootNotSvg)
        },
    }
}

/// The document that `validate_svg` keeps for a candidate that passed the content check.
pub open spec fn svg_document(svg: Seq<char>, allow_tag_recovery: bool) -> Result<Seq<char>, SvgError> {
    document_given(svg, xml_root_element_name(svg) is Some, allow_tag_recovery)
}

/// What `validate_svg` returns for `raw`.
pub open spec fn validated(raw: Seq<char>, allow_tag_recovery: bool) -> Result<Seq<char>, SvgError> {
    match svg_candidate(raw, allow_tag_recovery) {
        Err(e) => Err(e),
        Ok(svg) => if has_forbidden_content(svg) {
            Err(SvgError::ForbiddenContent)
        } else {
            match svg_document(svg, allow_tag_recovery) {
                Err(e) => Err(e),
                Ok(doc) => root_checked(doc, xml_root_element_name(doc)),
            }
        },
    }
}

/// Checks the SVG text that a model generated and cuts it to its `<svg>` element.
/// With `allow_tag_recovery`, a text whose closing tags are missing, or that is not XML,
/// is repaired by dropping malformed tags and closing the elements left open.
pub fn validate_svg(raw: String, allow_tag_recovery: bool) -> (res: Result<String, SvgError>)
    ensures
        match res {
            Ok(s) => validated(raw@, allow_tag_recovery) == Ok::<Seq<char>, SvgError>(s@),
            Err(e) => validated(raw@, allow_tag_recovery) == Err::<Seq<char>, SvgError>(e),
        },
{
    let v = to_chars(raw.as_str());
    let open_pat: Vec<char> = vec!['<', 's', 'v', 'g'];
    let close_pat: Vec<char> = vec!['<', '/', 's', 'v', 'g', '>'];
    assert(open_pat@ == svg_open());
    assert(close_pat@ == svg_close());
    let start = match find_exec(&v, &open_pat, 0) {
        None => return Err(SvgError::NoSvgRoot),
        Some(start) => start,
    };
    proof {
        lemma_find_from_bounds(v@, svg_open(), 0);
        lemma_rfind_below_bounds(v@, svg_close(), v@.len() as int);
    }
    let svg: String = match rfind_exec(&v, &close_pat, v.len()) {
        Some(close) => {
            if start > close + 6 {
                return Err(SvgError::NoSvgRoot);
            }
            let (a, b) = trim_bounds(&v, start, close + 6);
            string_from_range(&v, a, b)
        },
        None => {
            if allow_tag_recovery {
                let rest = string_from_range(&v, start, v.len());
                match balance_svg_tags(rest.as_str()) {
                    Ok(s) => s,
                    Err(e) => return Err(e),
                }
            } else {
                return Err(SvgError::Incomplete);
            }
        },
    };
    assert(svg_candidate(raw@, allow_tag_recovery) == Ok::<Seq<char>, SvgError>(svg@));
    if holds_forbidden_content(svg.as_str()) {
        return Err(SvgError::ForbiddenContent);
    }
    let parses = xml_root_name(svg.as_str()).is_ok();
    let doc = match document_for(svg, parses, allow_tag_recovery) {
        Ok(doc) => doc,
        Err(e) => return Err(e),
    };
    let root = match xml_root_name(doc.as_str()) {
        Ok(name) => Some(name),
        Err(_) => None,
    };
    check_root(doc, root)
}

/// The document kept for a candidate that passed the content check, given whether it parses
/// as XML (see `document_given`).
pub fn document_for(svg: String, parses: bool, allow_tag_recovery: bool) -> (r: Result<
    String,
    SvgError,
>)
    ensures
        match r {
            Ok(s) => document_given(svg@, parses, allow_tag_recovery) == Ok::<Seq<char>, SvgError>(
                s@,
            ),
            Err(e) => document_given(svg@, parses, allow_tag_recovery) == Err::<Seq<char>, SvgError>(
                e,
            ),
        },
{
    if parses {
        Ok(svg)
    } else if allow_tag_recovery {
        repair_svg(svg.as_str())
    } else {
        Err(SvgError::InvalidXml)
    }
}

/// Repairs a text that is not XML (see `repaired`).
pub fn repair_svg(svg: &str) -> (r: Result<String, SvgError>)
    ensures
        match r {
            Ok(s) => repaired(svg@) == Ok::<Seq<char>, SvgError>(s@),
            Err(e) => repaired(svg@) == Err::<Seq<char>, SvgError>(e),
        },
{
    let clean = remove_malformed_tags(svg);
    let v = to_chars(clean.as_str());
    let gt_pat: Vec<char> = vec!['>'];
    assert(gt_pat@ == gt());
    match rfind_exec(&v, &gt_pat, v.len()) {
        None => balance_svg_tags(clean.as_str()),
        Some(end) => {
            proof {
                lemma_rfind_below_bounds(v@, gt(), v@.len() as int);
            }
            let complete = range_vec(&v, 0, end + 1);
            let open = open_elements_exec(&complete);
            if open.len() == 0 {
                Ok(clean)
            } else {
                balance_svg_tags(clean.as_str())
            }
        },
    }
}

/// The outcome for a document, given the local name of its root element as the XML parser
/// reports it (see `root_checked`).
pub fn check_root(doc: String, root: Option<String>) -> (r: Result<String, SvgError>)
    ensures
        match r {
            Ok(s) => root_checked(doc@, opt_text(root)) == Ok::<Seq<char>, SvgError>(s@),
            Err(e) => root_checked(doc@, opt_text(root)) == Err::<Seq<char>, SvgError>(e),
        },
{
    match root {
        None => Err(SvgError::InvalidXml),
        Some(name) => {
            let name_chars = to_chars(name.as_str());
            let svg_pat: Vec<char> = vec!['s', 'v', 'g'];
            assert(svg_pat@ == svg_name());
            assert(name_chars@.subrange(0, name_chars@.len() as int) =~= name_chars@);
            if range_equals(&name_chars, 0, name_chars.len(), &svg_pat) {
                Ok(doc)
            } else {
                Err(SvgError::RootNotSvg)
            }
        },
    }
}

// Properties of the stack of open elements.

/// A name that a tag can push: not empty, without whitespace and without `>`.
pub open spec fn word_name(n: Seq<char>) -> bool {
    &&& n.len() > 0
    &&& lacks(n, '>')
    &&& forall|i: int| 0 <= i < n.len() ==> !is_space(n[i])
}

proof fn lemma_skip_space_lacks(t: Seq<char>, x: char)
    requires
        lacks(t, x),
    ensures
        lacks(skip_space(t), x),
    decreases t.len(),
{
    if t.len() > 0 && is_space(t[0]) {
        lemma_skip_space_lacks(t.drop_first(), x);
    }
}

proof fn lemma_take_word_chars(t: Seq<char>, x: char)
    requires
        lacks(t, x),
    ensures
        lacks(take_word(t), x),
        forall|i: int| 0 <= i < take_word(t).len() ==> !is_space(take_word(t)[i]),
    decreases t.len(),
{
    if t.len() > 0 && !is_space(t[0]) {
        lemma_take_word_chars(t.drop_first(), x);
        let w = take_word(t.drop_first());
        assert forall|i: int| 0 <= i < take_word(t).len() implies !is_space(take_word(t)[i])
            && take_word(t)[i] != x by {
            if i > 0 {
                assert(take_word(t)[i] == w[i - 1]);
            }
        }
    }
}

proof fn lemma_first_word_of_word(n: Seq<char>)
    requires
        n.len() > 0,
        forall|i: int| 0 <= i < n.len() ==> !is_space(n[i]),
    ensures
        first_word(n) == n,
{
    lemma_take_word_prefix(n, n.len() as int);
    assert(n.subrange(0, n.len() as int) =~= n);
}

proof fn lemma_open_stack_words(c: Seq<char>, offset: int, open: Seq<Seq<char>>)
    requires
        forall|k: int| 0 <= k < open.len() ==> word_name(#[trigger] open[k]),
    ensures
        forall|k: int|
            0 <= k < open_stack(c, offset, open).len() ==> word_name(
                #[trigger] open_stack(c, offset, open)[k],
            ),
    decreases c.len() - offset,
{
    if 0 <= offset <= c.len() {
        lemma_find_from_bounds(c, lt(), offset);
        if let Some(start) = find_from(c, lt(), offset) {
            lemma_find_from_bounds(c, gt(), start);
            if let Some(end) = find_from(c, gt(), start) {
                lemma_occurs_char(c, '<', start);
                lemma_occurs_char(c, '>', end);
                let raw_tag = c.subrange(start + 1, end);
                assert forall|i: int| 0 <= i < raw_tag.len() implies raw_tag[i] != '>' by {
                    lemma_occurs_char(c, '>', start + 1 + i);
                }
                let tag = trimmed(raw_tag);
                lemma_trimmed_lacks(raw_tag, '>');
                let next = tag_effect(tag, open);
                if tag.len() > 0 && tag[0] != '!' && tag[0] != '?' && tag.last() != '/' && tag[0]
                    != '/' && first_word(tag).len() > 0 {
                    lemma_skip_space_lacks(tag, '>');
                    lemma_take_word_chars(skip_space(tag), '>');
                    assert(next == open.push(first_word(tag)));
                    assert forall|k: int| 0 <= k < next.len() implies word_name(#[trigger] next[k]) by {
                        if k < open.len() {
                            assert(next[k] == open[k]);
                        }
                    }
                } else {
                    assert forall|k: int| 0 <= k < next.len() implies word_name(#[trigger] next[k]) by {
                        assert(next[k] == open[k]);
                    }
                }
                lemma_open_stack_words(c, end + 1, next);
                assert(open_stack(c, offset, open) == open_stack(c, end + 1, next));
            }
        }
    }
}

/// The occurrences of a one-character pattern in `c` below `c.len()` are those in `c + t`.
proof fn lemma_occurs_char_concat(c: Seq<char>, t: Seq<char>, x: char, j: int)
    requires
        0 <= j < c.len(),
    ensures
        occurs_at(c + t, seq![x], j) == occurs_at(c, seq![x], j),
{
    lemma_occurs_char(c, x, j);
    lemma_occurs_char(c + t, x, j);
}

/// Processing a text that ends with `>` and then some suffix is the same as processing the
/// text and going on with the suffix.
proof fn lemma_open_stack_prefix(c: Seq<char>, t: Seq<char>, offset: int, open: Seq<Seq<char>>)
    requires
        c.len() > 0,
        c.last() == '>',
        0 <= offset <= c.len(),
    ensures
        open_stack(c + t, offset, open) == open_stack(
            c + t,
            c.len() as int,
            open_stack(c, offset, open),
        ),
    decreases c.len() - offset,
{
    let u = c + t;
    lemma_find_from_bounds(c, lt(), offset);
    match find_from(c, lt(), offset) {
        Some(start) => {
            lemma_occurs_char(c, '<', start);
            assert forall|j: int| offset <= j < start implies !occurs_at(u, lt(), j) by {
                lemma_occurs_char_concat(c, t, '<', j);
            }
            lemma_occurs_char_concat(c, t, '<', start);
            lemma_find_from_is(u, lt(), offset, start);
            lemma_occurs_char(c, '>', c.len() - 1);
            lemma_find_from_bounds(c, gt(), start);
            let end = find_from(c, gt(), start)->0;
            lemma_occurs_char(c, '>', end);
            assert forall|j: int| start <= j < end implies !occurs_at(u, gt(), j) by {
                lemma_occurs_char_concat(c, t, '>', j);
            }
            lemma_occurs_char_concat(c, t, '>', end);
            lemma_find_from_is(u, gt(), start, end);
            assert(u.subrange(start + 1, end) =~= c.subrange(start + 1, end));
            let next = tag_effect(trimmed(c.subrange(start + 1, end)), open);
            lemma_open_stack_prefix(c, t, end + 1, next);
        },
        None => {
            assert forall|j: int| offset <= j < c.len() implies !occurs_at(u, lt(), j) by {
                lemma_occurs_char_concat(c, t, '<', j);
            }
            lemma_find_from_skip(u, lt(), offset, c.len() as int);
        },
    }
}

/// The appended closing tags close the elements of `o`, innermost first.
proof fn lemma_closers_close(s: Seq<char>, o: Seq<Seq<char>>)
    requires
        forall|k: int| 0 <= k < o.len() ==> word_name(#[trigger] o[k]) && o[k].last() != '/',
    ensures
        open_stack(s + closers(o), s.len() as int, o) == Seq::<Seq<char>>::empty(),
    decreases o.len(),
{
    let u = s + closers(o);
    if o.len() == 0 {
        assert(u =~= s);
        assert(find_from(u, lt(), s.len() as int) is None);
    } else {
        let n = o.last();
        let rest = o.drop_last();
        let s2 = s + close_tag(n);
        assert(u =~= s2 + closers(rest));
        let a = s.len() as int;
        let b = a + 2 + n.len();
        lemma_occurs_char(u, '<', a);
        lemma_find_from_is(u, lt(), a, a);
        lemma_occurs_char(u, '>', b);
        assert forall|j: int| a <= j < b implies !occurs_at(u, gt(), j) by {
            lemma_occurs_char(u, '>', j);
            if j >= a + 2 {
                assert(u[j] == n[j - a - 2]);
            }
        }
        lemma_find_from_is(u, gt(), a, b);
        let raw_tag = u.subrange(a + 1, b);
        assert(raw_tag =~= seq!['/'] + n);
        lemma_trimmed_unchanged(raw_tag);
        assert(raw_tag.drop_first() =~= n);
        lemma_first_word_of_word(n);
        assert(tag_effect(raw_tag, o) == rest);
        assert forall|k: int| 0 <= k < rest.len() implies word_name(#[trigger] rest[k])
            && rest[k].last() != '/' by {
            assert(rest[k] == o[k]);
        }
        lemma_closers_close(s2, rest);
        assert(s2.len() == b + 1);
    }
}

/// What a repaired text ends in: when `balance_svg_tags` succeeds, its result starts with
/// the input up to its last `>`, and reading the result again leaves no element open. This
/// holds for every input on which no name of a still-open element ends with `/`.
pub proof fn balanced_output_closes_every_element(raw: Seq<char>)
    requires
        complete_part(raw) matches Some(c) ==> forall|k: int|
            0 <= k < open_elements(c).len() ==> (#[trigger] open_elements(c)[k]).last() != '/',
    ensures
        balanced(raw) matches Ok(out) ==> {
            &&& complete_part(raw) matches Some(c)
            &&& out.subrange(0, c.len() as int) == c
            &&& open_elements(out) == Seq::<Seq<char>>::empty()
        },
{
    if let Some(c) = complete_part(raw) {
        let end = rfind_below(raw, gt(), raw.len() as int)->0;
        lemma_rfind_below_bounds(raw, gt(), raw.len() as int);
        lemma_occurs_char(raw, '>', end);
        assert(c.last() == '>');
        let open = open_elements(c);
        lemma_open_stack_words(c, 0, Seq::empty());
        lemma_open_stack_prefix(c, closers(open), 0, Seq::empty());
        lemma_closers_close(c, open);
        assert((c + closers(open)).subrange(0, c.len() as int) =~= c);
    }
}

// Properties of `remove_malformed_tags`.

/// With no quote character open and none ahead, a tag ends at the first `>` at or after `i`.
proof fn lemma_scan_without_quotes(s: Seq<char>, i: int, e: int)
    requires
        0 <= i <= e < s.len(),
        s[e] == '>',
        forall|j: int| i <= j < e ==> s[j] != '>' && s[j] != '"' && s[j] != '\'',
    ensures
        scan_tag(s, i, None) == TagScan::Closed(e),
    decreases e - i,
{
    if i < e {
        lemma_scan_without_quotes(s, i + 1, e);
    }
}

proof fn lemma_cleaned_unchanged(s: Seq<char>, cursor: int)
    requires
        0 <= cursor <= s.len(),
        lacks(s, '"'),
        lacks(s, '\''),
        lacks(s, '<') || (s.len() > 0 && s.last() == '>'),
    ensures
        cleaned_from(s, cursor) == s.subrange(cursor, s.len() as int),
    decreases s.len() - cursor,
{
    lemma_find_from_bounds(s, lt(), cursor);
    if let Some(start) = find_from(s, lt(), cursor) {
        lemma_occurs_char(s, '<', start);
        lemma_occurs_char(s, '>', s.len() - 1);
        lemma_find_from_bounds(s, gt(), start + 1);
        let e = find_from(s, gt(), start + 1)->0;
        assert forall|j: int| start + 1 <= j < e implies s[j] != '>' by {
            lemma_occurs_char(s, '>', j);
        }
        lemma_occurs_char(s, '>', e);
        lemma_scan_without_quotes(s, start + 1, e);
        lemma_cleaned_unchanged(s, e + 1);
        assert(s.subrange(cursor, e + 1) + s.subrange(e + 1, s.len() as int) =~= s.subrange(
            cursor,
            s.len() as int,
        ));
    }
}

/// `remove_malformed_tags` keeps valid markup: a text without quote characters comes back
/// unchanged when it has no `<` or ends with `>`.
pub proof fn cleaning_keeps_quote_free_markup(s: Seq<char>)
    requires
        lacks(s, '"'),
        lacks(s, '\''),
        lacks(s, '<') || (s.len() > 0 && s.last() == '>'),
    ensures
        cleaned(s) == s,
{
    lemma_cleaned_unchanged(s, 0);
    assert(s.subrange(0, s.len() as int) =~= s);
}

proof fn lemma_cleaned_from_len(s: Seq<char>, cursor: int)
    requires
        0 <= cursor <= s.len(),
    ensures
        cleaned_from(s, cursor).len() <= s.len() - cursor,
    decreases s.len() - cursor,
{
    lemma_find_from_bounds(s, lt(), cursor);
    if let Some(start) = find_from(s, lt(), cursor) {
        lemma_scan_tag_bounds(s, start + 1, None);
        match scan_tag(s, start + 1, None) {
            TagScan::Closed(e) => {
                lemma_cleaned_from_len(s, e + 1);
            },
            TagScan::Nested(n) => {
                lemma_cleaned_from_len(s, n);
            },
            TagScan::Unterminated => {},
        }
    }
}

/// Cleaning only drops text: its result is never longer than its input.
pub proof fn cleaning_never_lengthens(s: Seq<char>)
    ensures
        cleaned(s).len() <= s.len(),
{
    lemma_cleaned_from_len(s, 0);
}

/// A scan result moved `c` places to the left.
spec fn shift_scan(r: TagScan, c: int) -> TagScan {
    match r {
        TagScan::Closed(e) => TagScan::Closed(e - c),
        TagScan::Nested(n) => TagScan::Nested(n - c),
        TagScan::Unterminated => TagScan::Unterminated,
    }
}

proof fn lemma_scan_suffix(s: Seq<char>, c: int, i: int, quote: Option<char>)
    requires
        0 <= c <= i,
        c <= s.len(),
    ensures
        scan_tag(s.subrange(c, s.len() as int), i - c, quote) == shift_scan(
            scan_tag(s, i, quote),
            c,
        ),
    decreases s.len() - i,
{
    let t = s.subrange(c, s.len() as int);
    if i < s.len() {
        assert(t[i - c] == s[i]);
        let ch = s[i];
        match quote {
            Some(q) => if ch == q {
                lemma_scan_suffix(s, c, i + 1, None);
            } else if ch != '<' {
                lemma_scan_suffix(s, c, i + 1, quote);
            },
            None => if ch == '"' || ch == '\'' {
                lemma_scan_suffix(s, c, i + 1, Some(ch));
            } else if ch != '>' {
                lemma_scan_suffix(s, c, i + 1, None);
            },
        }
    }
}

proof fn lemma_find_suffix(s: Seq<char>, p: Seq<char>, c: int, k: int)
    requires
        0 <= c <= k,
        c <= s.len(),
    ensures
        find_from(s.subrange(c, s.len() as int), p, k - c) == match find_from(s, p, k) {
            Some(i) => Some(i - c),
            None => None::<int>,
        },
    decreases s.len() + 1 - k,
{
    let t = s.subrange(c, s.len() as int);
    if k + p.len() <= s.len() {
        assert(t.subrange(k - c, k - c + p.len()) =~= s.subrange(k, k + p.len()));
        lemma_find_suffix(s, p, c, k + 1);
    }
}

proof fn lemma_cleaned_suffix(s: Seq<char>, c: int, k: int)
    requires
        0 <= c <= k <= s.len(),
    ensures
        cleaned_from(s, k) == cleaned_from(s.subrange(c, s.len() as int), k - c),
    decreases s.len() - k,
{
    let t = s.subrange(c, s.len() as int);
    lemma_find_suffix(s, lt(), c, k);
    lemma_find_from_bounds(s, lt(), k);
    match find_from(s, lt(), k) {
        None => {
            assert(t.subrange(k - c, t.len() as int) =~= s.subrange(k, s.len() as int));
        },
        Some(start) => {
            lemma_scan_suffix(s, c, start + 1, None);
            lemma_scan_tag_bounds(s, start + 1, None);
            match scan_tag(s, start + 1, None) {
                TagScan::Closed(e) => {
                    assert(t.subrange(k - c, e + 1 - c) =~= s.subrange(k, e + 1));
                    lemma_cleaned_suffix(s, c, e + 1);
                },
                TagScan::Nested(n) => {
                    assert(t.subrange(k - c, start - c) =~= s.subrange(k, start));
                    lemma_cleaned_suffix(s, c, n);
                },
                TagScan::Unterminated => {
                    assert(t.subrange(k - c, t.len() as int) =~= s.subrange(k, s.len() as int));
                },
            }
        },
    }
}

proof fn lemma_scan_concat(x: Seq<char>, y: Seq<char>, i: int, quote: Option<char>)
    requires
        0 <= i,
    ensures
        !(scan_tag(x, i, quote) is Unterminated) ==> scan_tag(x + y, i, quote) == scan_tag(
            x,
            i,
            quote,
        ),
        scan_tag(x + y, i, quote) matches TagScan::Closed(e) ==> (e < x.len() ==> scan_tag(
            x,
            i,
            quote,
        ) == TagScan::Closed(e)),
    decreases x.len() - i,
{
    lemma_scan_tag_bounds(x + y, i, quote);
    if i < x.len() {
        assert((x + y)[i] == x[i]);
        let ch = x[i];
        match quote {
            Some(q) => if ch == q {
                lemma_scan_concat(x, y, i + 1, None);
            } else if ch != '<' {
                lemma_scan_concat(x, y, i + 1, quote);
            },
            None => if ch == '"' || ch == '\'' {
                lemma_scan_concat(x, y, i + 1, Some(ch));
            } else if ch != '>' {
                lemma_scan_concat(x, y, i + 1, None);
            },
        }
    }
}

/// Text without `<` before `k` is kept as it is, and cleaning goes on from `k`.
proof fn lemma_cleaned_skip(s: Seq<char>, cursor: int, k: int)
    requires
        0 <= cursor <= k <= s.len(),
        forall|j: int| cursor <= j < k ==> s[j] != '<',
    ensures
        cleaned_from(s, cursor) == s.subrange(cursor, k) + cleaned_from(s, k),
{
    assert forall|j: int| cursor <= j < k implies !occurs_at(s, lt(), j) by {
        lemma_occurs_char(s, '<', j);
    }
    lemma_find_from_skip(s, lt(), cursor, k);
    lemma_find_from_bounds(s, lt(), k);
    match find_from(s, lt(), k) {
        None => {
            assert(s.subrange(cursor, s.len() as int) =~= s.subrange(cursor, k) + s.subrange(
                k,
                s.len() as int,
            ));
        },
        Some(start) => {
            lemma_scan_tag_bounds(s, start + 1, None);
            match scan_tag(s, start + 1, None) {
                TagScan::Closed(e) => {
                    assert(s.subrange(cursor, e + 1) =~= s.subrange(cursor, k) + s.subrange(k, e + 1));
                },
                TagScan::Nested(n) => {
                    assert(s.subrange(cursor, start) =~= s.subrange(cursor, k) + s.subrange(
                        k,
                        start,
                    ));
                },
                TagScan::Unterminated => {
                    assert(s.subrange(cursor, s.len() as int) =~= s.subrange(cursor, k)
                        + s.subrange(k, s.len() as int));
                },
            }
        },
    }
}

proof fn lemma_cleaned_after(x: Seq<char>, r: Seq<char>)
    ensures
        cleaned_from(x + r, x.len() as int) == cleaned(r),
{
    lemma_cleaned_suffix(x + r, x.len() as int, x.len() as int);
    assert((x + r).subrange(x.len() as int, (x + r).len() as int) =~= r);
}

proof fn lemma_cleaned_idempotent(u: Seq<char>)
    ensures
        cleaned(cleaned(u)) == cleaned(u),
    decreases u.len(),
{
    lemma_find_from_bounds(u, lt(), 0);
    if let Some(start) = find_from(u, lt(), 0) {
        lemma_occurs_char(u, '<', start);
        lemma_scan_tag_bounds(u, start + 1, None);
        match scan_tag(u, start + 1, None) {
            TagScan::Closed(e) => {
                let a = u.subrange(0, e + 1);
                let rest = u.subrange(e + 1, u.len() as int);
                let r = cleaned_from(u, e + 1);
                lemma_cleaned_suffix(u, e + 1, e + 1);
                lemma_cleaned_idempotent(rest);
                assert(u =~= a + rest);
                lemma_scan_concat(a, rest, start + 1, None);
                lemma_scan_concat(a, r, start + 1, None);
                assert forall|j: int| 0 <= j < start implies !occurs_at(a, lt(), j) by {
                    lemma_occurs_char(u, '<', j);
                    lemma_occurs_char(a, '<', j);
                }
                lemma_occurs_char(a, '<', start);
                lemma_find_from_is(a, lt(), 0, start);
                assert forall|j: int| 0 <= j < start implies !occurs_at(a + r, lt(), j) by {
                    lemma_occurs_char(a, '<', j);
                    lemma_occurs_char(a + r, '<', j);
                }
                lemma_occurs_char(a + r, '<', start);
                lemma_find_from_is(a + r, lt(), 0, start);
                lemma_cleaned_after(a, r);
                assert((a + r).subrange(0, e + 1) =~= a);
            },
            TagScan::Nested(n) => {
                let pre = u.subrange(0, start);
                let rest = u.subrange(n, u.len() as int);
                let r = cleaned_from(u, n);
                lemma_cleaned_suffix(u, n, n);
                lemma_cleaned_idempotent(rest);
                assert forall|j: int| 0 <= j < start implies (pre + r)[j] != '<' by {
                    lemma_occurs_char(u, '<', j);
                }
                lemma_cleaned_skip(pre + r, 0, start);
                lemma_cleaned_after(pre, r);
                assert((pre + r).subrange(0, start) =~= pre);
            },
            TagScan::Unterminated => {
                assert(u.subrange(0, u.len() as int) =~= u);
            },
        }
    } else {
        assert(u.subrange(0, u.len() as int) =~= u);
    }
}

/// Cleaning twice gives what cleaning once gives: what `remove_malformed_tags` returns has
/// no malformed tag left.
pub proof fn cleaning_is_idempotent(s: Seq<char>)
    ensures
        cleaned(cleaned(s)) == cleaned(s),
{
    lemma_cleaned_idempotent(s);
}

/// `s` from `from` on with the ranges `[i, j)` of `ranges` left out, in order.
pub open spec fn without_ranges(s: Seq<char>, ranges: Seq<(int, int)>, from: int) -> Seq<char>
    decreases ranges.len(),
{
    if ranges.len() == 0 {
        s.subrange(from, s.len() as int)
    } else {
        s.subrange(from, ranges[0].0) + without_ranges(s, ranges.drop_first(), ranges[0].1)
    }
}

/// The ranges `[i, j)` of `ranges` lie in order at or after `from`, do not touch, and each
/// runs from a `<` of `s` up to, not including, a later `<` of `s`.
pub open spec fn tag_ranges(s: Seq<char>, ranges: Seq<(int, int)>, from: int) -> bool
    decreases ranges.len(),
{
    ranges.len() == 0 || {
        &&& from <= ranges[0].0 < ranges[0].1 < s.len()
        &&& s[ranges[0].0] == '<'
        &&& s[ranges[0].1] == '<'
        &&& tag_ranges(s, ranges.drop_first(), ranges[0].1)
    }
}

/// The ranges that cleaning `s` from `cursor` on leaves out.
spec fn dropped_ranges(s: Seq<char>, cursor: int) -> Seq<(int, int)>
    decreases s.len() - cursor,
{
    if cursor < 0 || cursor > s.len() {
        Seq::empty()
    } else {
        match find_from(s, lt(), cursor) {
            None => Seq::empty(),
            Some(start) => {
                proof {
                    lemma_find_from_bounds(s, lt(), cursor);
                    lemma_scan_tag_bounds(s, start + 1, None);
                }
                match scan_tag(s, start + 1, None) {
                    TagScan::Closed(e) => dropped_ranges(s, e + 1),
                    TagScan::Nested(n) => seq![(start, n)] + dropped_ranges(s, n),
                    TagScan::Unterminated => Seq::empty(),
                }
            },
        }
    }
}

proof fn lemma_without_ranges_earlier(s: Seq<char>, ranges: Seq<(int, int)>, from: int, later: int)
    requires
        0 <= from <= later <= s.len(),
        ranges.len() > 0 ==> later <= ranges[0].0 <= s.len(),
    ensures
        without_ranges(s, ranges, from) == s.subrange(from, later) + without_ranges(
            s,
            ranges,
            later,
        ),
{
    if ranges.len() == 0 {
        assert(s.subrange(from, s.len() as int) =~= s.subrange(from, later) + s.subrange(
            later,
            s.len() as int,
        ));
    } else {
        assert(s.subrange(from, ranges[0].0) =~= s.subrange(from, later) + s.subrange(
            later,
            ranges[0].0,
        ));
    }
}

proof fn lemma_dropped_ranges(s: Seq<char>, cursor: int)
    requires
        0 <= cursor <= s.len(),
    ensures
        tag_ranges(s, dropped_ranges(s, cursor), cursor),
        cleaned_from(s, cursor) == without_ranges(s, dropped_ranges(s, cursor), cursor),
    decreases s.len() - cursor,
{
    lemma_find_from_bounds(s, lt(), cursor);
    if let Some(start) = find_from(s, lt(), cursor) {
        lemma_occurs_char(s, '<', start);
        lemma_scan_tag_bounds(s, start + 1, None);
        match scan_tag(s, start + 1, None) {
            TagScan::Closed(e) => {
                let rest = dropped_ranges(s, e + 1);
                lemma_dropped_ranges(s, e + 1);
                lemma_without_ranges_earlier(s, rest, cursor, e + 1);
            },
            TagScan::Nested(n) => {
                let rest = dropped_ranges(s, n);
                lemma_dropped_ranges(s, n);
                let all = seq![(start, n)] + rest;
                assert(all.drop_first() =~= rest);
                assert(all[0] == (start, n));
            },
            TagScan::Unterminated => {},
        }
    }
}

/// Cleaning only leaves out tags cut short: what `remove_malformed_tags` returns is its input
/// with some ranges left out, in order and apart, each running from a `<` up to the next
/// `<` that was kept.
pub proof fn cleaning_drops_only_tag_ranges(s: Seq<char>)
    ensures
        exists|ranges: Seq<(int, int)>|
            tag_ranges(s, ranges, 0) && #[trigger] without_ranges(s, ranges, 0) == cleaned(s),
{
    lemma_dropped_ranges(s, 0);
    let ranges = dropped_ranges(s, 0);
    assert(tag_ranges(s, ranges, 0) && without_ranges(s, ranges, 0) == cleaned(s));
}

// Laws of `validate_svg`.

/// When a `</svg>` ends after the first `<svg` starts, strict validation either fails or
/// returns exactly the text from that `<svg` through the last `</svg>`: it starts with
/// `<svg` and ends with `</svg>`, and whatever stood around it is gone.
pub proof fn strict_validation_cuts_to_the_svg_element(raw: Seq<char>)
    requires
        find_from(raw, svg_open(), 0) is Some,
        rfind_below(raw, svg_close(), raw.len() as int) is Some,
        find_from(raw, svg_open(), 0)->0 <= rfind_below(raw, svg_close(), raw.len() as int)->0,
    ensures
        validated(raw, false) matches Ok(out) ==> {
            let start = find_from(raw, svg_open(), 0)->0;
            let close = rfind_below(raw, svg_close(), raw.len() as int)->0;
            &&& out == raw.subrange(start, close + 6)
            &&& out.subrange(0, 4) == svg_open()
            &&& out.subrange(out.len() - 6, out.len() as int) == svg_close()
        },
{
    let start = find_from(raw, svg_open(), 0)->0;
    let close = rfind_below(raw, svg_close(), raw.len() as int)->0;
    lemma_find_from_bounds(raw, svg_open(), 0);
    lemma_rfind_below_bounds(raw, svg_close(), raw.len() as int);
    let cut = raw.subrange(start, close + 6);
    assert(raw.subrange(start, start + 4) == svg_open());
    assert(raw.subrange(close, close + 6) == svg_close());
    assert(cut[0] == raw.subrange(start, start + 4)[0]);
    assert(cut.last() == raw.subrange(close, close + 6)[5]);
    lemma_trimmed_unchanged(cut);
    assert(cut.subrange(0, 4) =~= raw.subrange(start, start + 4));
    assert(cut.subrange(cut.len() - 6, cut.len() as int) =~= raw.subrange(close, close + 6));
}

/// Repair only touches what strict validation refuses: a text that strict validation
/// accepts is accepted unchanged when repair is allowed.
pub proof fn repair_keeps_valid_output(raw: Seq<char>)
    ensures
        validated(raw, false) matches Ok(out) ==> validated(raw, true) == Ok::<Seq<char>, SvgError>(
            out,
        ),
{
}

/// Strict validation refuses every text that has no `</svg>`.
pub proof fn strict_validation_requires_closing_tag(raw: Seq<char>)
    requires
        rfind_below(raw, svg_close(), raw.len() as int) is None,
    ensures
        validated(raw, false) is Err,
{
}

/// Every text that validation accepts, strict or repaired, is an XML document whose root
/// element is `svg`.
pub proof fn accepted_svg_is_an_svg_document(raw: Seq<char>, allow_tag_recovery: bool)
    ensures
        validated(raw, allow_tag_recovery) matches Ok(out) ==> xml_root_element_name(out) == Some(
            svg_name(),
        ),
{
}

/// Active content is refused: a candidate that holds scripts, foreign objects, images,
/// `javascript:` or `onload=` (in any ASCII case) fails with `ForbiddenContent`, and what
/// strict validation accepts holds none of them.
pub proof fn active_content_is_refused(raw: Seq<char>, allow_tag_recovery: bool)
    ensures
        svg_candidate(raw, allow_tag_recovery) matches Ok(svg) && has_forbidden_content(svg)
            ==> validated(raw, allow_tag_recovery) == Err::<Seq<char>, SvgError>(
            SvgError::ForbiddenContent,
        ),
        validated(raw, false) matches Ok(out) ==> !has_forbidden_content(out),
{
}

// Active content in repaired output.

/// No occurrence of `p` in the ASCII lower case of `s`.
spec fn free_of(s: Seq<char>, p: Seq<char>) -> bool {
    forall|i: int| !#[trigger] occurs_at(ascii_lowered(s), p, i)
}

/// The shape of every forbidden pattern: at least two characters, no `/` or `>`, and no `<`
/// but maybe the first.
spec fn tag_safe(p: Seq<char>) -> bool {
    &&& p.len() > 1
    &&& forall|k: int| 0 <= k < p.len() ==> p[k] != '/' && p[k] != '>'
    &&& forall|k: int| 1 <= k < p.len() ==> p[k] != '<'
}

/// `e` stands somewhere in `c`.
spec fn sub_of(e: Seq<char>, c: Seq<char>) -> bool {
    exists|a: int, b: int| 0 <= a <= b <= c.len() && #[trigger] c.subrange(a, b) == e
}

proof fn lemma_patterns_tag_safe(k: int)
    requires
        0 <= k < forbidden_patterns().len(),
    ensures
        tag_safe(forbidden_patterns()[k]),
{
}

proof fn lemma_contains_free(s: Seq<char>, p: Seq<char>)
    ensures
        contains(ascii_lowered(s), p) <==> !free_of(s, p),
{
    lemma_find_from_bounds(ascii_lowered(s), p, 0);
}

proof fn lemma_lowered_add(x: Seq<char>, y: Seq<char>)
    ensures
        ascii_lowered(x + y) == ascii_lowered(x) + ascii_lowered(y),
{
    assert(ascii_lowered(x + y) =~= ascii_lowered(x) + ascii_lowered(y));
}

proof fn lemma_free_subrange(s: Seq<char>, p: Seq<char>, a: int, b: int)
    requires
        0 <= a <= b <= s.len(),
        free_of(s, p),
    ensures
        free_of(s.subrange(a, b), p),
{
    let ls = ascii_lowered(s);
    let lt_ = ascii_lowered(s.subrange(a, b));
    assert(lt_ =~= ls.subrange(a, b));
    assert forall|i: int| !#[trigger] occurs_at(lt_, p, i) by {
        if occurs_at(lt_, p, i) {
            assert(lt_.subrange(i, i + p.len()) =~= ls.subrange(a + i, a + i + p.len()));
            assert(occurs_at(ls, p, a + i));
        }
    }
}

proof fn lemma_free_sub_of(e: Seq<char>, c: Seq<char>, p: Seq<char>)
    requires
        sub_of(e, c),
        free_of(c, p),
    ensures
        free_of(e, p),
{
    let (a, b) = choose|a: int, b: int| 0 <= a <= b <= c.len() && #[trigger] c.subrange(a, b) == e;
    lemma_free_subrange(c, p, a, b);
}

/// Joining two texts without `p` at a `<` makes no `p`.
proof fn lemma_free_seam(x: Seq<char>, y: Seq<char>, p: Seq<char>)
    requires
        free_of(x, p),
        free_of(y, p),
        tag_safe(p),
        y.len() > 0 ==> y[0] == '<',
    ensures
        free_of(x + y, p),
{
    lemma_lowered_add(x, y);
    let lx = ascii_lowered(x);
    let ly = ascii_lowered(y);
    let l = lx + ly;
    assert forall|i: int| !#[trigger] occurs_at(ascii_lowered(x + y), p, i) by {
        if occurs_at(l, p, i) {
            if i + p.len() <= x.len() {
                assert(l.subrange(i, i + p.len()) =~= lx.subrange(i, i + p.len()));
                assert(occurs_at(lx, p, i));
            } else if i >= x.len() {
                assert(l.subrange(i, i + p.len()) =~= ly.subrange(
                    i - x.len(),
                    i - x.len() + p.len(),
                ));
                assert(occurs_at(ly, p, i - x.len()));
            } else {
                let k = x.len() - i;
                assert(l.subrange(i, i + p.len())[k] == l[x.len() as int]);
                assert(l[x.len() as int] == ly[0]);
                assert(p[k] == '<');
            }
        }
    }
}

proof fn lemma_free_close_tag(n: Seq<char>, p: Seq<char>)
    requires
        free_of(n, p),
        tag_safe(p),
    ensures
        free_of(close_tag(n), p),
{
    let ln = ascii_lowered(n);
    let l = ascii_lowered(close_tag(n));
    assert(l =~= seq!['<', '/'] + ln + seq!['>']);
    assert forall|i: int| !#[trigger] occurs_at(l, p, i) by {
        if occurs_at(l, p, i) {
            let w = l.subrange(i, i + p.len());
            if i == 0 {
                assert(w[1] == '/');
            } else if i == 1 {
                assert(w[0] == '/');
            } else if i + p.len() <= n.len() + 2 {
                assert(w =~= ln.subrange(i - 2, i - 2 + p.len()));
                assert(occurs_at(ln, p, i - 2));
            } else {
                let k = n.len() + 2 - i;
                assert(w[k] == '>');
            }
        }
    }
}

proof fn lemma_free_closers(open: Seq<Seq<char>>, p: Seq<char>)
    requires
        tag_safe(p),
        forall|k: int| 0 <= k < open.len() ==> free_of(#[trigger] open[k], p),
    ensures
        free_of(closers(open), p),
        closers(open).len() > 0 ==> closers(open)[0] == '<',
    decreases open.len(),
{
    if open.len() > 0 {
        let rest = open.drop_last();
        assert forall|k: int| 0 <= k < rest.len() implies free_of(#[trigger] rest[k], p) by {
            assert(rest[k] == open[k]);
        }
        lemma_free_closers(rest, p);
        assert(free_of(open[open.len() - 1], p));
        lemma_free_close_tag(open.last(), p);
        lemma_free_seam(close_tag(open.last()), closers(rest), p);
    } else {
        assert(ascii_lowered(closers(open)).len() == 0);
    }
}

proof fn lemma_trimmed_sub(t: Seq<char>) -> (r: (int, int))
    ensures
        0 <= r.0 <= r.1 <= t.len(),
        trimmed(t) == t.subrange(r.0, r.1),
    decreases t.len(),
{
    if t.len() > 0 && is_space(t[0]) {
        let q = lemma_trimmed_sub(t.drop_first());
        assert(t.drop_first().subrange(q.0, q.1) =~= t.subrange(q.0 + 1, q.1 + 1));
        (q.0 + 1, q.1 + 1)
    } else if t.len() > 0 && is_space(t.last()) {
        let q = lemma_trimmed_sub(t.drop_last());
        assert(t.drop_last().subrange(q.0, q.1) =~= t.subrange(q.0, q.1));
        q
    } else {
        assert(t.subrange(0, t.len() as int) =~= t);
        (0, t.len() as int)
    }
}

proof fn lemma_skip_space_sub(t: Seq<char>) -> (k: int)
    ensures
        0 <= k <= t.len(),
        skip_space(t) == t.subrange(k, t.len() as int),
    decreases t.len(),
{
    if t.len() > 0 && is_space(t[0]) {
        let q = lemma_skip_space_sub(t.drop_first());
        assert(t.drop_first().subrange(q, t.drop_first().len() as int) =~= t.subrange(
            q + 1,
            t.len() as int,
        ));
        q + 1
    } else {
        assert(t.subrange(0, t.len() as int) =~= t);
        0
    }
}

proof fn lemma_take_word_sub(t: Seq<char>) -> (m: int)
    ensures
        0 <= m <= t.len(),
        take_word(t) == t.subrange(0, m),
    decreases t.len(),
{
    if t.len() > 0 && !is_space(t[0]) {
        let q = lemma_take_word_sub(t.drop_first());
        assert(seq![t[0]] + t.drop_first().subrange(0, q) =~= t.subrange(0, q + 1));
        q + 1
    } else {
        assert(t.subrange(0, 0) =~= Seq::<char>::empty());
        0
    }
}

proof fn lemma_tag_name_sub(c: Seq<char>, start: int, end: int)
    requires
        0 <= start < end <= c.len(),
    ensures
        sub_of(first_word(trimmed(c.subrange(start + 1, end))), c),
{
    let raw_tag = c.subrange(start + 1, end);
    let (a, b) = lemma_trimmed_sub(raw_tag);
    let tag = trimmed(raw_tag);
    let k = lemma_skip_space_sub(tag);
    let rest = skip_space(tag);
    let m = lemma_take_word_sub(rest);
    let lo = start + 1 + a + k;
    assert(first_word(tag) =~= c.subrange(lo, lo + m));
    assert(0 <= lo <= lo + m <= c.len());
}

proof fn lemma_open_stack_sub(c: Seq<char>, offset: int, open: Seq<Seq<char>>)
    requires
        forall|k: int| 0 <= k < open.len() ==> sub_of(#[trigger] open[k], c),
    ensures
        forall|k: int|
            0 <= k < open_stack(c, offset, open).len() ==> sub_of(
                #[trigger] open_stack(c, offset, open)[k],
                c,
            ),
    decreases c.len() - offset,
{
    if 0 <= offset <= c.len() {
        lemma_find_from_bounds(c, lt(), offset);
        if let Some(start) = find_from(c, lt(), offset) {
            lemma_find_from_bounds(c, gt(), start);
            if let Some(end) = find_from(c, gt(), start) {
                lemma_occurs_char(c, '<', start);
                lemma_occurs_char(c, '>', end);
                let tag = trimmed(c.subrange(start + 1, end));
                let next = tag_effect(tag, open);
                lemma_tag_name_sub(c, start, end);
                if tag.len() > 0 && tag[0] != '!' && tag[0] != '?' && tag.last() != '/' && tag[0]
                    != '/' && first_word(tag).len() > 0 {
                    assert(next == open.push(first_word(tag)));
                    assert forall|k: int| 0 <= k < next.len() implies sub_of(#[trigger] next[k], c) by {
                        if k < open.len() {
                            assert(next[k] == open[k]);
                        }
                    }
                } else {
                    assert forall|k: int| 0 <= k < next.len() implies sub_of(#[trigger] next[k], c) by {
                        assert(next[k] == open[k]);
                    }
                }
                lemma_open_stack_sub(c, end + 1, next);
                assert(open_stack(c, offset, open) == open_stack(c, end + 1, next));
            }
        }
    }
}

proof fn lemma_free_cleaned_from(s: Seq<char>, cursor: int, pre: Seq<char>, p: Seq<char>)
    requires
        0 <= cursor <= s.len(),
        tag_safe(p),
        free_of(pre + s.subrange(cursor, s.len() as int), p),
    ensures
        free_of(pre + cleaned_from(s, cursor), p),
    decreases s.len() - cursor,
{
    lemma_find_from_bounds(s, lt(), cursor);
    if let Some(start) = find_from(s, lt(), cursor) {
        lemma_occurs_char(s, '<', start);
        lemma_scan_tag_bounds(s, start + 1, None);
        match scan_tag(s, start + 1, None) {
            TagScan::Closed(e) => {
                let pre2 = pre + s.subrange(cursor, e + 1);
                assert(pre2 + s.subrange(e + 1, s.len() as int) =~= pre + s.subrange(
                    cursor,
                    s.len() as int,
                ));
                lemma_free_cleaned_from(s, e + 1, pre2, p);
                assert(pre2 + cleaned_from(s, e + 1) =~= pre + cleaned_from(s, cursor));
            },
            TagScan::Nested(n) => {
                let pre2 = pre + s.subrange(cursor, start);
                let whole = pre + s.subrange(cursor, s.len() as int);
                let tail = s.subrange(n, s.len() as int);
                lemma_free_subrange(whole, p, 0, pre2.len() as int);
                assert(whole.subrange(0, pre2.len() as int) =~= pre2);
                lemma_free_subrange(whole, p, pre.len() + n - cursor, whole.len() as int);
                assert(whole.subrange(pre.len() + n - cursor, whole.len() as int) =~= tail);
                lemma_free_seam(pre2, tail, p);
                lemma_free_cleaned_from(s, n, pre2, p);
                assert(pre2 + cleaned_from(s, n) =~= pre + cleaned_from(s, cursor));
            },
            TagScan::Unterminated => {},
        }
    }
}

proof fn lemma_free_balanced(c: Seq<char>, p: Seq<char>)
    requires
        tag_safe(p),
        free_of(c, p),
    ensures
        balanced(c) matches Ok(out) ==> free_of(out, p),
{
    lemma_rfind_below_bounds(c, gt(), c.len() as int);
    if let Some(end) = rfind_below(c, gt(), c.len() as int) {
        let complete = c.subrange(0, end + 1);
        lemma_free_subrange(c, p, 0, end + 1);
        let open = open_elements(complete);
        lemma_open_stack_sub(complete, 0, Seq::empty());
        assert forall|k: int| 0 <= k < open.len() implies free_of(#[trigger] open[k], p) by {
            lemma_free_sub_of(open[k], complete, p);
        }
        lemma_free_closers(open, p);
        lemma_free_seam(complete, closers(open), p);
    }
}

proof fn lemma_free_repaired(svg: Seq<char>, p: Seq<char>)
    requires
        tag_safe(p),
        free_of(svg, p),
    ensures
        repaired(svg) matches Ok(out) ==> free_of(out, p),
{
    assert(Seq::<char>::empty() + svg.subrange(0, svg.len() as int) =~= svg);
    lemma_free_cleaned_from(svg, 0, Seq::empty(), p);
    assert(Seq::<char>::empty() + cleaned(svg) =~= cleaned(svg));
    lemma_free_balanced(cleaned(svg), p);
}

/// Repair adds no active content: whatever validation accepts, strict or repaired, holds no
/// script, foreign object, image, `javascript:` or `onload=`, in any ASCII case.
pub proof fn accepted_svg_holds_no_active_content(raw: Seq<char>, allow_tag_recovery: bool)
    ensures
        validated(raw, allow_tag_recovery) matches Ok(out) ==> !has_forbidden_content(out),
{
    if let Ok(svg) = svg_candidate(raw, allow_tag_recovery) {
        if !has_forbidden_content(svg) {
            if let Ok(doc) = svg_document(svg, allow_tag_recovery) {
                assert forall|k: int| 0 <= k < forbidden_patterns().len() implies !#[trigger] contains(
                    ascii_lowered(doc),
                    forbidden_patterns()[k],
                ) by {
                    let p = forbidden_patterns()[k];
                    lemma_patterns_tag_safe(k);
                    assert(!contains(ascii_lowered(svg), p));
                    lemma_contains_free(svg, p);
                    lemma_free_repaired(svg, p);
                    lemma_contains_free(doc, p);
                }
            }
        }
    }
}

// The in-process StarVector runtime.

/// An SVG that a StarVector model generated, with how long it took and what produced it.
#[derive(Debug)]
pub struct StarVectorResult {
    pub svg: String,
    pub elapsed_ms: u128,
    pub engine: String,
}

/// The settings of an in-process generation other than its floating-point sampling
/// parameters (temperature and nucleus mass, which the caller sets from `do_sample`).
#[derive(Debug, Clone, Copy, PartialEq, Eq, Structural)]
pub struct GenerationSettings {
    pub max_new_tokens: usize,
    pub num_beams: usize,
    pub do_sample: bool,
    pub seed: u64,
}

/// The settings for a model and the `VECTOR_MAX_TOKENS` setting: the token budget parsed
/// from the setting (else the default), one beam, sampling for the 8B model only, seed 42.
pub open spec fn settings_for(kind: ModelKind, token_setting: Option<Seq<char>>) -> GenerationSettings {
    GenerationSettings {
        max_new_tokens: match token_setting {
            Some(t) => match parsed_usize(t) {
                Some(k) => k as usize,
                None => DEFAULT_MAX_TOKENS,
            },
            None => DEFAULT_MAX_TOKENS,
        },
        num_beams: 1,
        do_sample: kind == ModelKind::EightB,
        seed: 42,
    }
}

/// The device for a build target: Apple Silicon is checked before CUDA.
pub open spec fn device_for(target: crate::BuildTarget) -> DeviceChoice {
    if target.apple_silicon {
        DeviceChoice::Metal
    } else if target.cuda {
        DeviceChoice::Cuda
    } else {
        DeviceChoice::Cpu
    }
}

/// How a generation proceeds.
#[derive(Debug, Clone, Copy, PartialEq, Eq, Structural)]
pub enum GenerationStep {
    /// The official Transformers runtime generates, in a separate process.
    Official,
    /// The model generates in-process with `settings`, after its checkpoint is loaded on
    /// `load` when that is given (replacing any other checkpoint).
    Native { load: Option<DeviceChoice>, settings: GenerationSettings },
}

/// Which StarVector checkpoint the runtime holds in memory, and on which device; the weights
/// themselves are held by the caller beside it. Only one checkpoint is held at a time.
pub struct StarVectorRuntime {
    loaded: Option<(ModelKind, DeviceChoice)>,
}

impl View for StarVectorRuntime {
    type V = Option<(ModelKind, DeviceChoice)>;

    closed spec fn view(&self) -> Option<(ModelKind, DeviceChoice)> {
        self.loaded
    }
}

/// The device of the held checkpoint.
pub open spec fn held_device(held: Option<(ModelKind, DeviceChoice)>) -> DeviceChoice {
    match held {
        Some((_, d)) => d,
        None => DeviceChoice::Cpu,
    }
}

/// The runtime holds the checkpoint of `kind`.
pub open spec fn holds(held: Option<(ModelKind, DeviceChoice)>, kind: ModelKind) -> bool {
    held matches Some((k, _)) && k == kind
}

impl Default for StarVectorRuntime {
    fn default() -> (r: Self)
        ensures
            r@ is None,
    {
        Self::new()
    }
}

impl StarVectorRuntime {
    /// A runtime that holds no checkpoint.
    pub fn new() -> (r: Self)
        ensures
            r@ is None,
    {
        StarVectorRuntime { loaded: None }
    }

    /// Releases the checkpoint of `kind` if it is the one held; another one stays.
    pub fn unload(&mut self, kind: ModelKind)
        ensures
            final(self)@ == (if holds(old(self)@, kind) {
                None
            } else {
                old(self)@
            }),
    {
        if let Some((held, _)) = self.loaded {
            if held == kind {
                self.loaded = None;
            }
        }
    }

    /// Whether generating with `kind` must load its checkpoint first.
    pub fn needs_load(&self, kind: ModelKind) -> (r: bool)
        ensures
            r == !holds(self@, kind),
    {
        match self.loaded {
            Some((held, _)) => held != kind,
            None => true,
        }
    }

    /// How a generation with `kind` proceeds: on the official runtime when
    /// `uses_official_runtime` says so; else in-process with the settings for `kind` and the
    /// `VECTOR_MAX_TOKENS` setting, loading the checkpoint first on the build's device unless
    /// it is the one held.
    pub fn generate(
        &self,
        kind: ModelKind,
        official_setting_present: bool,
        target: crate::BuildTarget,
        token_setting: Option<String>,
    ) -> (step: GenerationStep)
        ensures
            step == (if kind == ModelKind::EightB && official_setting_present {
                GenerationStep::Official
            } else {
                GenerationStep::Native {
                    load: if holds(self@, kind) {
                        None
                    } else {
                        Some(device_for(target))
                    },
                    settings: settings_for(kind, opt_text(token_setting)),
                }
            }),
    {
        if uses_official_runtime(kind, official_setting_present) {
            return GenerationStep::Official;
        }
        let load = if self.needs_load(kind) {
            Some(runtime_device(target))
        } else {
            None
        };
        let settings = GenerationSettings {
            max_new_tokens: max_new_tokens(token_setting),
            num_beams: 1,
            do_sample: samples_tokens(kind),
            seed: 42,
        };
        GenerationStep::Native { load, settings }
    }

    /// Records that the checkpoint of `kind` was loaded on `device`, replacing any other.
    pub fn mark_loaded(&mut self, kind: ModelKind, device: DeviceChoice)
        ensures
            final(self)@ == Some((kind, device)),
    {
        self.loaded = Some((kind, device));
    }

    /// The result of an in-process generation with the held checkpoint of `kind`: the
    /// model's raw output validated (and for the 8B model repaired), with the engine
    /// description naming the model and the device it runs on.
    pub fn finish(&self, kind: ModelKind, raw: String, elapsed_ms: u128) -> (r: Result<
        StarVectorResult,
        SvgError,
    >)
        requires
            holds(self@, kind),
        ensures
            match r {
                Ok(res) => validated(raw@, kind == ModelKind::EightB) == Ok::<Seq<char>, SvgError>(
                    res.svg@,
                ) && res.engine@ == engine_text(kind, device_name_text(held_device(self@)))
                    && res.elapsed_ms == elapsed_ms,
                Err(e) => validated(raw@, kind == ModelKind::EightB) == Err::<Seq<char>, SvgError>(
                    e,
                ),
            },
    {
        let device = match self.loaded {
            Some((_, d)) => d,
            None => DeviceChoice::Cpu,
        };
        let svg = match validate_svg(raw, repairs_truncated_output(kind)) {
            Ok(svg) => svg,
            Err(e) => return Err(e),
        };
        let a = concat_str(kind.label(), " · ");
        let engine = concat_str(a.as_str(), device.name());
        Ok(StarVectorResult { svg, elapsed_ms, engine })
    }
}

/// Whether a generation with `kind` goes to the official Transformers runtime: only for the
/// 8B model, and only when `VECTOR_OFFICIAL_8B_RUNTIME` is set.
pub fn uses_official_runtime(kind: ModelKind, official_setting_present: bool) -> (r: bool)
    ensures
        r == (kind == ModelKind::EightB && official_setting_present),
{
    kind == ModelKind::EightB && official_setting_present
}

/// The device that in-process inference runs on.
#[derive(Debug, Clone, Copy, PartialEq, Eq, Structural)]
pub enum DeviceChoice {
    Metal,
    Cuda,
    Cpu,
}

/// The device for a build target: Apple Silicon is checked before CUDA.
pub fn runtime_device(target: crate::BuildTarget) -> (d: DeviceChoice)
    ensures
        d == device_for(target),
{
    if target.apple_silicon {
        DeviceChoice::Metal
    } else if target.cuda {
        DeviceChoice::Cuda
    } else {
        DeviceChoice::Cpu
    }
}

/// The name of a device in the engine description.
pub open spec fn device_name_text(d: DeviceChoice) -> Seq<char> {
    match d {
        DeviceChoice::Metal => "Metal/BF16"@,
        DeviceChoice::Cuda => "NVIDIA CUDA"@,
        DeviceChoice::Cpu => "CPU/F32"@,
    }
}

impl DeviceChoice {
    /// The name of the device in the engine description.
    pub fn name(self) -> (n: &'static str)
        ensures
            n@ == device_name_text(self),
    {
        match self {
            DeviceChoice::Metal => "Metal/BF16",
            DeviceChoice::Cuda => "NVIDIA CUDA",
            DeviceChoice::Cpu => "CPU/F32",
        }
    }
}

/// Whether generation samples tokens: the released 8B checkpoint needs sampling to emit
/// image-conditioned SVG, the 1B checkpoint decodes greedily.
pub fn samples_tokens(kind: ModelKind) -> (r: bool)
    ensures
        r == (kind == ModelKind::EightB),
{
    kind == ModelKind::EightB
}

/// Whether a model's output may be repaired when its closing tags are missing: the 8B model
/// draws the whole image but can run out of context first; 1B output stays strict.
pub fn repairs_truncated_output(kind: ModelKind) -> (r: bool)
    ensures
        r == (kind == ModelKind::EightB),
{
    kind == ModelKind::EightB
}

/// A decimal digit.
pub open spec fn is_digit(c: char) -> bool {
    '0' <= c <= '9'
}

/// The value of a string of decimal digits.
pub open spec fn digits_value(s: Seq<char>) -> int
    decreases s.len(),
{
    if s.len() == 0 {
        0
    } else {
        digits_value(s.drop_last()) * 10 + (s.last() as int - 48)
    }
}

/// `s` without one leading `+`.
pub open spec fn unsigned_digits(s: Seq<char>) -> Seq<char> {
    if s.len() > 0 && s[0] == '+' {
        s.drop_first()
    } else {
        s
    }
}

/// What `str::parse::<usize>` gives for `s`: an optional `+` followed by at least one
/// decimal digit, whose value fits in `usize`.
pub open spec fn parsed_usize(s: Seq<char>) -> Option<int> {
    let d = unsigned_digits(s);
    if d.len() > 0 && (forall|i: int| 0 <= i < d.len() ==> is_digit(#[trigger] d[i]))
        && digits_value(d) <= usize::MAX {
        Some(digits_value(d))
    } else {
        None
    }
}

proof fn lemma_digits_value_grows(s: Seq<char>, k: int)
    requires
        0 <= k <= s.len(),
        forall|i: int| 0 <= i < s.len() ==> is_digit(#[trigger] s[i]),
    ensures
        0 <= digits_value(s.take(k)) <= digits_value(s),
    decreases s.len() - k,
{
    if k < s.len() {
        lemma_digits_value_grows(s, k + 1);
        assert(s.take(k + 1).drop_last() =~= s.take(k));
    } else {
        assert(s.take(k) =~= s);
        lemma_digits_value_nonneg(s);
    }
}

proof fn lemma_digits_value_nonneg(s: Seq<char>)
    requires
        forall|i: int| 0 <= i < s.len() ==> is_digit(#[trigger] s[i]),
    ensures
        digits_value(s) >= 0,
    decreases s.len(),
{
    if s.len() > 0 {
        lemma_digits_value_nonneg(s.drop_last());
    }
}

/// Parses a decimal `usize` as `str::parse` does.
pub fn parse_usize(s: &str) -> (r: Option<usize>)
    ensures
        match r {
            Some(n) => parsed_usize(s@) == Some(n as int),
            None => parsed_usize(s@) is None,
        },
{
    let v = to_chars(s);
    let start: usize = if v.len() > 0 && v[0] == '+' {
        1
    } else {
        0
    };
    let ghost d = v@.subrange(start as int, v@.len() as int);
    assert(d =~= unsigned_digits(s@));
    if start >= v.len() {
        return None;
    }
    let mut value: usize = 0;
    let mut i = start;
    while i < v.len()
        invariant
            v@ == s@,
            start <= i <= v.len(),
            d == v@.subrange(start as int, v@.len() as int),
            d == unsigned_digits(s@),
            forall|j: int| 0 <= j < i - start ==> is_digit(#[trigger] d[j]),
            value == digits_value(d.take(i - start)),
        decreases v.len() - i,
    {
        let c = v[i];
        if c < '0' || c > '9' {
            assert(!is_digit(d[i - start]));
            return None;
        }
        let digit = (c as u32 - 48) as usize;
        assert(d.take(i - start + 1).drop_last() =~= d.take(i - start));
        match value.checked_mul(10) {
            None => {
                proof {
                    assert forall|j: int| 0 <= j < i - start + 1 implies is_digit(
                        #[trigger] d.take(i - start + 1)[j],
                    ) by {
                        assert(d.take(i - start + 1)[j] == d[j]);
                    }
                    lemma_digits_value_nonneg(d.take(i - start));
                    if forall|j: int| 0 <= j < d.len() ==> is_digit(#[trigger] d[j]) {
                        lemma_digits_value_grows(d, i - start + 1);
                    }
                }
                return None;
            },
            Some(tens) => match tens.checked_add(digit) {
                None => {
                    proof {
                        if forall|j: int| 0 <= j < d.len() ==> is_digit(#[trigger] d[j]) {
                            lemma_digits_value_grows(d, i - start + 1);
                        }
                    }
                    return None;
                },
                Some(next) => {
                    value = next;
                },
            },
        }
        i = i + 1;
    }
    assert(d.take(d.len() as int) =~= d);
    Some(value)
}

/// The default token budget of in-process generation.
pub const DEFAULT_MAX_TOKENS: usize = 7_933;

/// The token budget for the `VECTOR_MAX_TOKENS` setting: its value when it parses as a
/// number, else the default.
pub fn max_new_tokens(setting: Option<String>) -> (n: usize)
    ensures
        n == match setting {
            Some(v) => match parsed_usize(v@) {
                Some(k) => k,
                None => DEFAULT_MAX_TOKENS as int,
            },
            None => DEFAULT_MAX_TOKENS as int,
        },
{
    match setting {
        Some(v) => match parse_usize(v.as_str()) {
            Some(k) => k,
            None => DEFAULT_MAX_TOKENS,
        },
        None => DEFAULT_MAX_TOKENS,
    }
}

/// The engine description of in-process generation: the model and the device.
pub open spec fn engine_text(kind: ModelKind, device_name: Seq<char>) -> Seq<char> {
    label_text(kind) + " · "@ + device_name
}

/// The result of generation by the official 8B runtime: its output validated with repair.
pub fn official_result(raw: String, elapsed_ms: u128) -> (r: Result<StarVectorResult, SvgError>)
    ensures
        match r {
            Ok(res) => validated(raw@, true) == Ok::<Seq<char>, SvgError>(res.svg@) && res.engine@
                == "StarVector 8B · official Transformers CUDA"@ && res.elapsed_ms == elapsed_ms,
            Err(e) => validated(raw@, true) == Err::<Seq<char>, SvgError>(e),
        },
{
    let svg = match validate_svg(raw, true) {
        Ok(svg) => svg,
        Err(e) => return Err(e),
    };
    Ok(StarVectorResult {
        svg,
        elapsed_ms,
        engine: "StarVector 8B · official Transformers CUDA".to_owned(),
    })
}

// Laws of the runtime's decisions.

/// The in-process model runs on Metal on every Apple Silicon build, whether or not CUDA is
/// on; on the GPU for the other CUDA builds; else on the CPU. The device always agrees with
/// the one the status report names.
pub proof fn model_runs_on_the_build_device(target: crate::BuildTarget)
    ensures
        target.apple_silicon ==> device_for(target) == DeviceChoice::Metal,
        !target.apple_silicon && target.cuda ==> device_for(target) == DeviceChoice::Cuda,
        !target.apple_silicon && !target.cuda ==> device_for(target) == DeviceChoice::Cpu,
        device_for(target) == DeviceChoice::Metal <==> crate::device_label_text(target)
            == "Metal · BF16"@,
        device_for(target) == DeviceChoice::Cuda <==> crate::device_label_text(target)
            == "NVIDIA CUDA · GPU"@,
        device_for(target) == DeviceChoice::Cpu <==> crate::device_label_text(target)
            == "CPU · F32"@,
{
    reveal_strlit("Metal · BF16");
    reveal_strlit("NVIDIA CUDA · GPU");
    reveal_strlit("CPU · F32");
    assert("Metal · BF16"@[0] != "NVIDIA CUDA · GPU"@[0]);
    assert("Metal · BF16"@[0] != "CPU · F32"@[0]);
    assert("CPU · F32"@[0] != "NVIDIA CUDA · GPU"@[0]);
}

proof fn lemma_decimal_digits(n: nat)
    ensures
        decimal_text(n).len() > 0,
        forall|i: int| 0 <= i < decimal_text(n).len() ==> is_digit(#[trigger] decimal_text(n)[i]),
        digits_value(decimal_text(n)) == n,
    decreases n,
{
    if n < 10 {
        let t = decimal_text(n);
        assert(t.drop_last() =~= Seq::<char>::empty());
        assert(t.last() as int == 48 + n);
        assert(digits_value(t.drop_last()) == 0);
        assert(digits_value(t) == digits_value(t.drop_last()) * 10 + (t.last() as int - 48));
    } else {
        lemma_decimal_digits(n / 10);
        let t = decimal_text(n);
        let d = (n % 10) as int;
        assert(t.drop_last() =~= decimal_text(n / 10));
        assert(t.last() as int == 48 + d);
        assert forall|i: int| 0 <= i < t.len() implies is_digit(#[trigger] t[i]) by {
            if i < t.len() - 1 {
                assert(t[i] == decimal_text(n / 10)[i]);
            }
        }
        vstd::arithmetic::div_mod::lemma_fundamental_div_mod(n as int, 10);
        assert(digits_value(t) == digits_value(t.drop_last()) * 10 + (t.last() as int - 48));
        assert(digits_value(t) == (n / 10) * 10 + d);
    }
}

/// The token budget reads back any number written in decimal, with or without a leading
/// `+`; text that is not a number gives the default of 7933 tokens, as does no setting.
pub proof fn token_budget_reads_decimal_numbers(kind: ModelKind, n: nat)
    requires
        n <= usize::MAX,
    ensures
        parsed_usize(decimal_text(n)) == Some(n as int),
        parsed_usize(seq!['+'] + decimal_text(n)) == Some(n as int),
        settings_for(kind, Some(decimal_text(n))).max_new_tokens == n,
        settings_for(kind, None).max_new_tokens == 7933,
        settings_for(kind, Some(Seq::empty())).max_new_tokens == 7933,
        settings_for(kind, Some(seq!['+'])).max_new_tokens == 7933,
{
    lemma_decimal_digits(n);
    let t = decimal_text(n);
    assert(t[0] != '+');
    assert((seq!['+'] + t).drop_first() =~= t);
    assert(unsigned_digits(Seq::<char>::empty()) =~= Seq::<char>::empty());
    assert(unsigned_digits(seq!['+']) =~= Seq::<char>::empty());
}

/// A setting with any character other than a decimal digit, but for one leading `+`, is
/// not a number.
pub proof fn token_setting_with_other_characters_is_no_number(s: Seq<char>, i: int)
    requires
        0 <= i < s.len(),
        !('0' <= s[i] <= '9'),
        !(i == 0 && s[0] == '+'),
    ensures
        parsed_usize(s) is None,
{
    let d = unsigned_digits(s);
    if s.len() > 0 && s[0] == '+' {
        assert(d[i - 1] == s[i]);
        assert(!is_digit(d[i - 1]));
    } else {
        assert(!is_digit(d[i]));
    }
}

/// The runtime holds the checkpoint it loaded last and no other; it runs on the device it
/// was loaded on, and the devices are named Metal/BF16, NVIDIA CUDA and CPU/F32.
pub proof fn the_last_loaded_checkpoint_is_held(kind: ModelKind, other: ModelKind, device: DeviceChoice)
    ensures
        holds(Some((kind, device)), kind),
        other != kind ==> !holds(Some((kind, device)), other),
        !holds(None, kind),
        held_device(Some((kind, device))) == device,
        device_name_text(DeviceChoice::Metal) == "Metal/BF16"@,
        device_name_text(DeviceChoice::Cuda) == "NVIDIA CUDA"@,
        device_name_text(DeviceChoice::Cpu) == "CPU/F32"@,
{
}

/// Generation always uses one beam and seed 42, and samples tokens for the 8B model only.
pub proof fn generation_settings_are_fixed(kind: ModelKind, token_setting: Option<Seq<char>>)
    ensures
        settings_for(kind, token_setting).num_beams == 1,
        settings_for(kind, token_setting).seed == 42,
        settings_for(kind, token_setting).do_sample <==> kind == ModelKind::EightB,
{
}

/// The engine description starts with the model's name and ends with the device's name.
pub proof fn engine_names_model_and_device(kind: ModelKind, device: DeviceChoice)
    ensures
        engine_text(kind, device_name_text(device)).subrange(0, label_text(kind).len() as int)
            == label_text(kind),
        engine_text(kind, device_name_text(device)).len() == label_text(kind).len() + 3
            + device_name_text(device).len(),
        engine_text(kind, device_name_text(device)).subrange(
            label_text(kind).len() + 3 as int,
            engine_text(kind, device_name_text(device)).len() as int,
        ) == device_name_text(device),
{
    reveal_strlit(" · ");
    let e = engine_text(kind, device_name_text(device));
    assert(e.subrange(0, label_text(kind).len() as int) =~= label_text(kind));
    assert(e.subrange(label_text(kind).len() + 3 as int, e.len() as int) =~= device_name_text(device));
}

proof fn lemma_closers_end(open: Seq<Seq<char>>)
    requires
        open.len() > 0,
    ensures
        closers(open).len() >= close_tag(open[0]).len(),
        closers(open).subrange(
            closers(open).len() - close_tag(open[0]).len(),
            closers(open).len() as int,
        ) == close_tag(open[0]),
    decreases open.len(),
{
    let rest = open.drop_last();
    if open.len() == 1 {
        assert(rest =~= Seq::<Seq<char>>::empty());
        assert(closers(rest) == Seq::<char>::empty());
        assert(open.last() == open[0]);
        assert(closers(open) =~= close_tag(open[0]));
    } else {
        lemma_closers_end(rest);
        assert(rest[0] == open[0]);
        let c = closers(open);
        let t = closers(rest);
        assert(c == close_tag(open.last()) + t);
        assert(c.subrange(c.len() - close_tag(open[0]).len(), c.len() as int) =~= t.subrange(
            t.len() - close_tag(open[0]).len(),
            t.len() as int,
        ));
    }
}

/// What balancing returns starts with the given text up to its last `>` and ends with the
/// closing tag `</svg>` of the root.
pub proof fn balanced_output_ends_with_the_root_closing_tag(s: Seq<char>)
    ensures
        balanced(s) matches Ok(out) ==> {
            &&& out.len() >= 6
            &&& out.subrange(out.len() - 6, out.len() as int) == seq!['<', '/', 's', 'v', 'g', '>']
            &&& complete_part(s) matches Some(c) && out.subrange(0, c.len() as int) == c
        },
{
    if let Some(c) = complete_part(s) {
        let open = open_elements(c);
        if open.len() > 0 && open[0] == svg_name() {
            lemma_closers_end(open);
            let out = c + closers(open);
            assert(close_tag(open[0]) =~= seq!['<', '/', 's', 'v', 'g', '>']);
            assert(out.subrange(out.len() - 6, out.len() as int) =~= closers(open).subrange(
                closers(open).len() - 6,
                closers(open).len() as int,
            ));
            assert(out.subrange(0, c.len() as int) =~= c);
        }
    }
}

/// Strict validation returns an error or text that starts with `<svg` and ends with
/// `</svg>`; the one other outcome is an empty text, which comes only from a `<svg` right
/// after the last `</svg>` and only if the XML parser accepted an empty document.
pub proof fn strict_output_is_an_svg_element(raw: Seq<char>)
    ensures
        validated(raw, false) matches Ok(out) ==> out.len() == 0 || {
            &&& out.len() >= 6
            &&& out.subrange(0, 4) == seq!['<', 's', 'v', 'g']
            &&& out.subrange(out.len() - 6, out.len() as int) == seq!['<', '/', 's', 'v', 'g', '>']
        },
{
    if let Some(start) = find_from(raw, svg_open(), 0) {
        if let Some(close) = rfind_below(raw, svg_close(), raw.len() as int) {
            if start <= close + 6 && validated(raw, false) is Ok {
                lemma_find_from_bounds(raw, svg_open(), 0);
                lemma_rfind_below_bounds(raw, svg_close(), raw.len() as int);
                let tag = raw.subrange(close, close + 6);
                assert(raw.subrange(start, start + 4)[0] == raw[start]);
                if close < start < close + 6 {
                    assert(tag[start - close] == raw[start]);
                }
                if start <= close {
                    strict_validation_cuts_to_the_svg_element(raw);
                } else {
                    assert(raw.subrange(start, close + 6) =~= Seq::<char>::empty());
                    assert(trimmed(Seq::<char>::empty()) == Seq::<char>::empty());
                }
            }
        }
    }
}

/// The forbidden texts, in any ASCII case: `<script`, `<foreignobject`, `<image`,
/// `javascript:` and `onload=`. A candidate that holds one is refused with `ForbiddenContent`.
pub proof fn each_forbidden_text_is_refused(raw: Seq<char>, allow_tag_recovery: bool, k: int)
    requires
        0 <= k < 5,
    ensures
        forbidden_patterns()[0] == seq!['<', 's', 'c', 'r', 'i', 'p', 't'],
        forbidden_patterns()[1] == seq![
            '<', 'f', 'o', 'r', 'e', 'i', 'g', 'n', 'o', 'b', 'j', 'e', 'c', 't'
        ],
        forbidden_patterns()[2] == seq!['<', 'i', 'm', 'a', 'g', 'e'],
        forbidden_patterns()[3] == seq!['j', 'a', 'v', 'a', 's', 'c', 'r', 'i', 'p', 't', ':'],
        forbidden_patterns()[4] == seq!['o', 'n', 'l', 'o', 'a', 'd', '='],
        svg_candidate(raw, allow_tag_recovery) matches Ok(svg) && contains(
            ascii_lowered(svg),
            forbidden_patterns()[k],
        ) ==> validated(raw, allow_tag_recovery) == Err::<Seq<char>, SvgError>(
            SvgError::ForbiddenContent,
        ),
{
}

/// Case is compared in ASCII only: capital letters become small ones, every other
/// character stays.
pub proof fn case_folding_is_ascii(c: char)
    ensures
        'A' <= c <= 'Z' ==> ascii_lower(c) as u32 == c as u32 + 32,
        !('A' <= c <= 'Z') ==> ascii_lower(c) == c,
{
}

} // verus!
