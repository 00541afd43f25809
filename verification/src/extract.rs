//! Identity extraction from the upstream's HTML fragment: the DOM lookups
//! are entrusted to an HTML parser, while the scan that turns the marked
//! element's text chunks into a membership id is verified here: trim
//! ASCII whitespace, then accept a non-empty run of decimal digits whose
//! value fits a `u32`, taking the first chunk that parses.

use vstd::prelude::*;

verus! {

/// A decimal digit byte.
pub open spec fn is_ascii_digit(b: u8) -> bool {
    48 <= b <= 57
}

/// An ASCII whitespace byte.
pub open spec fn is_ascii_space(b: u8) -> bool {
    b == 32 || b == 9 || b == 10 || b == 13 || b == 11 || b == 12
}

/// Every byte is a decimal digit.
pub open spec fn all_digits(s: Seq<u8>) -> bool {
    forall|i: int| 0 <= i < s.len() ==> is_ascii_digit(s[i])
}

/// The number a run of digits denotes, most significant first.
pub open spec fn dec_val(s: Seq<u8>) -> nat
    decreases s.len(),
{
    if s.len() == 0 {
        0
    } else {
        dec_val(s.drop_last()) * 10 + (s.last() - 48) as nat
    }
}

/// The sequence without its leading whitespace.
pub open spec fn trim_front(s: Seq<u8>) -> Seq<u8>
    decreases s.len(),
{
    if s.len() > 0 && is_ascii_space(s[0]) {
        trim_front(s.drop_first())
    } else {
        s
    }
}

/// The sequence without its trailing whitespace.
pub open spec fn trim_back(s: Seq<u8>) -> Seq<u8>
    decreases s.len(),
{
    if s.len() > 0 && is_ascii_space(s.last()) {
        trim_back(s.drop_last())
    } else {
        s
    }
}

/// The sequence without whitespace at either end.
pub open spec fn spec_trim(s: Seq<u8>) -> Seq<u8> {
    trim_back(trim_front(s))
}

/// What one text chunk yields: its trimmed bytes read as a decimal
/// membership id, if they are a non-empty digit run whose value fits.
pub open spec fn spec_parse_id(s: Seq<u8>) -> Option<u32> {
    let t = spec_trim(s);
    if t.len() > 0 && all_digits(t) && dec_val(t) <= u32::MAX {
        Some(dec_val(t) as u32)
    } else {
        None
    }
}

proof fn lemma_trim_front_idx(s: Seq<u8>, lo: int)
    requires
        0 <= lo <= s.len(),
        forall|i: int| 0 <= i < lo ==> is_ascii_space(s[i]),
        lo < s.len() ==> !is_ascii_space(s[lo]),
    ensures
        trim_front(s) == s.subrange(lo, s.len() as int),
    decreases lo,
{
    if lo == 0 {
        assert(s.subrange(0, s.len() as int) =~= s);
    } else {
        lemma_trim_front_idx(s.drop_first(), lo - 1);
        assert(s.drop_first().subrange(lo - 1, s.drop_first().len() as int) =~= s.subrange(
            lo,
            s.len() as int,
        ));
    }
}

proof fn lemma_trim_back_idx(s: Seq<u8>, hi: int)
    requires
        0 <= hi <= s.len(),
        forall|i: int| hi <= i < s.len() ==> is_ascii_space(s[i]),
        hi > 0 ==> !is_ascii_space(s[hi - 1]),
    ensures
        trim_back(s) == s.subrange(0, hi),
    decreases s.len() - hi,
{
    if hi == s.len() {
        assert(s.subrange(0, s.len() as int) =~= s);
    } else {
        lemma_trim_back_idx(s.drop_last(), hi);
        assert(s.drop_last().subrange(0, hi) =~= s.subrange(0, hi));
    }
}

proof fn lemma_dec_val_prefix_le(t: Seq<u8>, k: int)
    requires
        0 <= k <= t.len(),
        all_digits(t),
    ensures
        dec_val(t.take(k)) <= dec_val(t),
    decreases t.len() - k,
{
    if k == t.len() {
        assert(t.take(k) =~= t);
    } else {
        assert(t.take(k + 1).drop_last() =~= t.take(k));
        assert(dec_val(t.take(k + 1)) == dec_val(t.take(k)) * 10 + (t[k] - 48) as nat);
        lemma_dec_val_prefix_le(t, k + 1);
    }
}

fn is_space_byte(b: u8) -> (r: bool)
    ensures
        r == is_ascii_space(b),
{
    b == 32 || b == 9 || b == 10 || b == 13 || b == 11 || b == 12
}

/// Read one text chunk as a membership id; the exact outcome for every
/// input is `spec_parse_id`.
pub fn parse_member_id(text: &Vec<u8>) -> (r: Option<u32>)
    ensures
        r == spec_parse_id(text@),
{
    let n = text.len();
    let mut lo: usize = 0;
    while lo < n && is_space_byte(text[lo])
        invariant
            0 <= lo <= n,
            n == text@.len(),
            forall|i: int| 0 <= i < lo ==> is_ascii_space(text@[i]),
        decreases n - lo,
    {
        lo += 1;
    }
    proof {
        lemma_trim_front_idx(text@, lo as int);
    }
    if lo == n {
        proof {
            assert(trim_front(text@) =~= Seq::<u8>::empty());
            assert(spec_trim(text@).len() == 0);
        }
        return None;
    }
    let mut hi: usize = n;
    while hi > lo && is_space_byte(text[hi - 1])
        invariant
            lo <= hi <= n,
            n == text@.len(),
            forall|i: int| hi <= i < n ==> is_ascii_space(text@[i]),
        decreases hi,
    {
        hi -= 1;
    }
    let ghost front = text@.subrange(lo as int, n as int);
    proof {
        assert(hi > lo) by {
            if hi == lo {
                assert(is_ascii_space(text@[lo as int]));
            }
        }
        assert(forall|i: int|
            hi - lo <= i < front.len() ==> is_ascii_space(#[trigger] front[i]));
        lemma_trim_back_idx(front, hi - lo);
        assert(front.subrange(0, hi - lo) =~= text@.subrange(lo as int, hi as int));
    }
    let ghost t = text@.subrange(lo as int, hi as int);
    let mut acc: u64 = 0;
    let mut i: usize = lo;
    proof {
        assert(t.take(0) =~= Seq::<u8>::empty());
    }
    while i < hi
        invariant
            lo <= i <= hi <= n,
            n == text@.len(),
            t == text@.subrange(lo as int, hi as int),
            spec_trim(text@) == t,
            acc == dec_val(t.take(i - lo)),
            acc <= u32::MAX,
            forall|j: int| 0 <= j < i - lo ==> is_ascii_digit(t[j]),
        decreases hi - i,
    {
        let b = text[i];
        if !(48 <= b && b <= 57) {
            proof {
                assert(t[i - lo] == text@[i as int]);
                assert(!all_digits(t));
            }
            return None;
        }
        proof {
            assert(t.take(i - lo + 1).drop_last() =~= t.take(i - lo));
            assert(t.take(i - lo + 1).last() == t[i - lo]);
        }
        acc = acc * 10 + (b - 48) as u64;
        if acc > u32::MAX as u64 {
            proof {
                if all_digits(t) {
                    lemma_dec_val_prefix_le(t, i - lo + 1);
                }
            }
            return None;
        }
        i += 1;
    }
    proof {
        assert(t.take(hi - lo) =~= t);
        assert(all_digits(t));
        assert(t.len() > 0);
    }
    Some(acc as u32)
}

/// The concatenated visible text of the element carrying this `id`
/// attribute in this HTML, if the document parses and the element exists.
/// A pure function of the fragment and the marker.
pub uninterp spec fn marked_element_text(html: Seq<char>, id: Seq<char>) -> Option<Seq<char>>;

/// The UTF-8 bytes of each direct text-bearing child of the first element
/// carrying this class in this HTML, in document order, if the document
/// parses and such an element with children exists. A pure function of
/// the fragment and the marker.
pub uninterp spec fn marked_class_texts(html: Seq<char>, class: Seq<char>) -> Option<
    Seq<Seq<u8>>,
>;

/// Relies on tl::parse, tl::VDom::get_element_by_id and
/// tl::Node::inner_text: parse the fragment, find the element whose `id`
/// attribute is the marker, and take its concatenated visible text. The
/// result depends on the fragment and the marker alone.
#[verifier::external_body]
fn find_marked_element_text(html: &str, id: &str) -> (r: Option<String>)
    ensures
        (match r {
            Some(s) => marked_element_text(html@, id@) == Some(s@),
            None => marked_element_text(html@, id@) is None,
        }),
{
    let dom = tl::parse(html, tl::ParserOptions::default()).ok()?;
    let parser = dom.parser();
    let node = dom.get_element_by_id(id)?.get(parser)?;
    Some(node.inner_text(parser).to_string())
}

/// Relies on tl::parse, tl::VDom::get_elements_by_class_name and
/// tl::Node::children: parse the fragment, take the first element of the
/// marker class, and hand back the bytes of each of its direct raw-text
/// children. The result depends on the fragment and the marker alone.
#[verifier::external_body]
fn find_marked_class_texts(html: &str, class: &str) -> (r: Option<Vec<Vec<u8>>>)
    ensures
        (match r {
            Some(v) => marked_class_texts(html@, class@) == Some(v.deep_view()),
            None => marked_class_texts(html@, class@) is None,
        }),
{
    let dom = tl::parse(html, tl::ParserOptions::default()).ok()?;
    let parser = dom.parser();
    let node = dom.get_elements_by_class_name(class).next()?.get(parser)?;
    let children = node.children()?;
    Some(
        children.top().iter().filter_map(
            |c| match c.get(parser) {
                Some(tl::Node::Raw(b)) => Some(b.as_utf8_str().as_bytes().to_vec()),
                _ => None,
            },
        ).collect(),
    )
}

/// The first text chunk that reads as a membership id, scanning the
/// chunks in document order.
pub open spec fn spec_first_id(texts: Seq<Seq<u8>>) -> Option<u32>
    decreases texts.len(),
{
    if texts.len() == 0 {
        None
    } else {
        match spec_parse_id(texts[0]) {
            Some(v) => Some(v),
            None => spec_first_id(texts.drop_first()),
        }
    }
}

/// Scan the marked element's text chunks for the membership id; the exact
/// outcome for every input is `spec_first_id`.
pub fn extract_member_id(texts: &Vec<Vec<u8>>) -> (r: Option<u32>)
    ensures
        r == spec_first_id(texts.deep_view()),
{
    let ghost dv = texts.deep_view();
    let mut i: usize = 0;
    proof {
        assert(dv.skip(0) =~= dv);
    }
    while i < texts.len()
        invariant
            0 <= i <= texts@.len(),
            dv == texts.deep_view(),
            dv.len() == texts@.len(),
            spec_first_id(dv.skip(i as int)) == spec_first_id(dv),
        decreases texts@.len() - i,
    {
        proof {
            assert(dv[i as int] =~= texts@[i as int]@);
            assert(dv.skip(i as int)[0] == dv[i as int]);
            assert(dv.skip(i as int).drop_first() =~= dv.skip(i + 1 as int));
        }
        match parse_member_id(&texts[i]) {
            Some(v) => {
                return Some(v);
            },
            None => {},
        }
        i += 1;
    }
    proof {
        assert(dv.skip(texts@.len() as int) =~= Seq::<Seq<u8>>::empty());
    }
    None
}

/// What identity the upstream fragment yields: the id-marked element's
/// text as the display name, and the first text chunk of the first
/// class-marked element that reads as a membership id.
pub open spec fn spec_extract(html: Seq<char>) -> Option<(Seq<char>, u32)> {
    match marked_element_text(html, "person_name"@) {
        None => None,
        Some(name) => match marked_class_texts(html, "campus_id"@) {
            None => None,
            Some(texts) => match spec_first_id(texts) {
                None => None,
                Some(g) => Some((name, g)),
            },
        },
    }
}

/// Extract `(display name, membership id)` from the upstream HTML
/// fragment, best effort: `None` is the structured extraction failure.
pub fn extract_identity(html: &str) -> (r: Option<(String, u32)>)
    ensures
        (match spec_extract(html@) {
            Some(ident) => r matches Some(p) && p.0@ == ident.0 && p.1 == ident.1,
            None => r is None,
        }),
{
    let name = match find_marked_element_text(html, "person_name") {
        Some(n) => n,
        None => {
            return None;
        },
    };
    let texts = match find_marked_class_texts(html, "campus_id") {
        Some(t) => t,
        None => {
            return None;
        },
    };
    match extract_member_id(&texts) {
        Some(gnum) => Some((name, gnum)),
        None => None,
    }
}

} // verus!
