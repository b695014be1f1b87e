//! Rendering of tag documents as XML text.
//!
//! A document is a declaration header, one `<tags>` root element, and one
//! empty `<tag name=".." value=".."/>` element per name/value pair. Values
//! are escaped by the attribute-escaping rules, so that any value, quotes
//! and angle brackets included, survives a round trip through a parser.

use vstd::prelude::*;

verus! {

pub open spec fn quot_entity() -> Seq<char> {
    seq!['&', 'q', 'u', 'o', 't', ';']
}

pub open spec fn amp_entity() -> Seq<char> {
    seq!['&', 'a', 'm', 'p', ';']
}

pub open spec fn apos_entity() -> Seq<char> {
    seq!['&', 'a', 'p', 'o', 's', ';']
}

pub open spec fn lt_entity() -> Seq<char> {
    seq!['&', 'l', 't', ';']
}

pub open spec fn gt_entity() -> Seq<char> {
    seq!['&', 'g', 't', ';']
}

/// What a single character becomes inside a double-quoted attribute value.
pub open spec fn escape_char(c: char) -> Seq<char> {
    if c == '"' {
        quot_entity()
    } else if c == '&' {
        amp_entity()
    } else if c == '\'' {
        apos_entity()
    } else if c == '<' {
        lt_entity()
    } else if c == '>' {
        gt_entity()
    } else {
        seq![c]
    }
}

/// The attribute-escaped form of a string.
pub open spec fn spec_escape(s: Seq<char>) -> Seq<char>
    decreases s.len(),
{
    if s.len() == 0 {
        Seq::empty()
    } else {
        escape_char(s[0]) + spec_escape(s.skip(1))
    }
}

/// What a parser recovers from the text between the double quotes of an
/// attribute: entities are decoded, a raw `"` or `<` is malformed.
pub open spec fn spec_unescape(s: Seq<char>) -> Option<Seq<char>>
    decreases s.len(),
{
    if s.len() == 0 {
        Some(Seq::empty())
    } else if s[0] == '&' {
        if s.len() >= 6 && s.take(6) == quot_entity() {
            match spec_unescape(s.skip(6)) {
                Some(r) => Some(seq!['"'] + r),
                None => None,
            }
        } else if s.len() >= 5 && s.take(5) == amp_entity() {
            match spec_unescape(s.skip(5)) {
                Some(r) => Some(seq!['&'] + r),
                None => None,
            }
        } else if s.len() >= 6 && s.take(6) == apos_entity() {
            match spec_unescape(s.skip(6)) {
                Some(r) => Some(seq!['\''] + r),
                None => None,
            }
        } else if s.len() >= 4 && s.take(4) == lt_entity() {
            match spec_unescape(s.skip(4)) {
                Some(r) => Some(seq!['<'] + r),
                None => None,
            }
        } else if s.len() >= 4 && s.take(4) == gt_entity() {
            match spec_unescape(s.skip(4)) {
                Some(r) => Some(seq!['>'] + r),
                None => None,
            }
        } else {
            None
        }
    } else if s[0] == '"' || s[0] == '<' {
        None
    } else {
        match spec_unescape(s.skip(1)) {
            Some(r) => Some(seq![s[0]] + r),
            None => None,
        }
    }
}

/// Escaping and re-parsing an attribute value gives the value back
/// exactly, for every string.
pub proof fn lemma_escape_round_trip(s: Seq<char>)
    ensures
        spec_unescape(spec_escape(s)) == Some(s),
    decreases s.len(),
{
    if s.len() == 0 {
        assert(spec_escape(s) =~= Seq::<char>::empty());
    } else {
        let c = s[0];
        let rest = s.skip(1);
        lemma_escape_round_trip(rest);
        let e = spec_escape(s);
        assert(e == escape_char(c) + spec_escape(rest));
        if c == '"' {
            assert(e.take(6) =~= quot_entity());
            assert(e.skip(6) =~= spec_escape(rest));
            assert(seq!['"'] + rest =~= s);
        } else if c == '&' {
            assert(e[1] == 'a');
            assert(e.len() >= 6 ==> e.take(6) != quot_entity()) by {
                if e.len() >= 6 && e.take(6) == quot_entity() {
                    assert(e.take(6)[1] == 'q');
                }
            }
            assert(e.take(5) =~= amp_entity());
            assert(e.skip(5) =~= spec_escape(rest));
            assert(seq!['&'] + rest =~= s);
        } else if c == '\'' {
            assert(e[1] == 'a' && e[2] == 'p');
            assert(e.len() >= 6 ==> e.take(6) != quot_entity()) by {
                if e.len() >= 6 && e.take(6) == quot_entity() {
                    assert(e.take(6)[1] == 'q');
                }
            }
            assert(e.len() >= 5 ==> e.take(5) != amp_entity()) by {
                if e.len() >= 5 && e.take(5) == amp_entity() {
                    assert(e.take(5)[2] == 'm');
                }
            }
            assert(e.take(6) =~= apos_entity());
            assert(e.skip(6) =~= spec_escape(rest));
            assert(seq!['\''] + rest =~= s);
        } else if c == '<' {
            assert(e[1] == 'l');
            assert(e.len() >= 6 ==> e.take(6) != quot_entity()) by {
                if e.len() >= 6 && e.take(6) == quot_entity() {
                    assert(e.take(6)[1] == 'q');
                }
            }
            assert(e.len() >= 5 ==> e.take(5) != amp_entity()) by {
                if e.len() >= 5 && e.take(5) == amp_entity() {
                    assert(e.take(5)[1] == 'a');
                }
            }
            assert(e.len() >= 6 ==> e.take(6) != apos_entity()) by {
                if e.len() >= 6 && e.take(6) == apos_entity() {
                    assert(e.take(6)[1] == 'a');
                }
            }
            assert(e.take(4) =~= lt_entity());
            assert(e.skip(4) =~= spec_escape(rest));
            assert(seq!['<'] + rest =~= s);
        } else if c == '>' {
            assert(e[1] == 'g');
            assert(e.len() >= 6 ==> e.take(6) != quot_entity()) by {
                if e.len() >= 6 && e.take(6) == quot_entity() {
                    assert(e.take(6)[1] == 'q');
                }
            }
            assert(e.len() >= 5 ==> e.take(5) != amp_entity()) by {
                if e.len() >= 5 && e.take(5) == amp_entity() {
                    assert(e.take(5)[1] == 'a');
                }
            }
            assert(e.len() >= 6 ==> e.take(6) != apos_entity()) by {
                if e.len() >= 6 && e.take(6) == apos_entity() {
                    assert(e.take(6)[1] == 'a');
                }
            }
            assert(e.len() >= 4 ==> e.take(4) != lt_entity()) by {
                if e.len() >= 4 && e.take(4) == lt_entity() {
                    assert(e.take(4)[1] == 'l');
                }
            }
            assert(e.take(4) =~= gt_entity());
            assert(e.skip(4) =~= spec_escape(rest));
            assert(seq!['>'] + rest =~= s);
        } else {
            assert(e[0] == c);
            assert(e.skip(1) =~= spec_escape(rest));
            assert(seq![c] + rest =~= s);
        }
    }
}

/// The escaped form of a value holds no raw double quote and no raw angle
/// bracket: the attribute stays well-formed and its closing quote is
/// unambiguous, whatever the value.
pub proof fn lemma_escape_well_formed(s: Seq<char>)
    ensures
        forall|i: int|
            0 <= i < spec_escape(s).len() ==> spec_escape(s)[i] != '"' && spec_escape(s)[i] != '<'
                && spec_escape(s)[i] != '>',
    decreases s.len(),
{
    if s.len() > 0 {
        lemma_escape_well_formed(s.skip(1));
        let e = escape_char(s[0]);
        let rest = spec_escape(s.skip(1));
        assert forall|i: int| 0 <= i < spec_escape(s).len() implies spec_escape(s)[i] != '"'
            && spec_escape(s)[i] != '<' && spec_escape(s)[i] != '>' by {
            if i < e.len() {
                assert(spec_escape(s)[i] == e[i]);
                assert(e[i] != '"' && e[i] != '<' && e[i] != '>');
            } else {
                assert(spec_escape(s)[i] == rest[i - e.len()]);
            }
        }
    }
}

/// Escaping distributes over concatenation.
pub proof fn lemma_escape_concat(a: Seq<char>, b: Seq<char>)
    ensures
        spec_escape(a + b) == spec_escape(a) + spec_escape(b),
    decreases a.len(),
{
    if a.len() == 0 {
        assert(a + b =~= b);
        assert(spec_escape(a) + spec_escape(b) =~= spec_escape(b));
    } else {
        lemma_escape_concat(a.skip(1), b);
        assert((a + b).skip(1) =~= a.skip(1) + b);
        assert((a + b)[0] == a[0]);
        assert(escape_char(a[0]) + (spec_escape(a.skip(1)) + spec_escape(b)) =~= (escape_char(
            a[0],
        ) + spec_escape(a.skip(1))) + spec_escape(b));
    }
}

proof fn lemma_escape_take_snoc(s: Seq<char>, i: int)
    requires
        0 <= i < s.len(),
    ensures
        spec_escape(s.take(i + 1)) == spec_escape(s.take(i)) + escape_char(s[i]),
{
    assert(s.take(i + 1) =~= s.take(i) + seq![s[i]]);
    lemma_escape_concat(s.take(i), seq![s[i]]);
    assert(seq![s[i]].skip(1) =~= Seq::<char>::empty());
    assert(spec_escape(seq![s[i]]) == escape_char(s[i]) + spec_escape(Seq::<char>::empty()));
    assert(escape_char(s[i]) + spec_escape(Seq::<char>::empty()) =~= escape_char(s[i]));
}

/// The result of decoding `rest`, with `prefix` already decoded before it.
pub open spec fn prepend_unescaped(prefix: Seq<char>, rest: Option<Seq<char>>) -> Option<
    Seq<char>,
> {
    match rest {
        Some(r) => Some(prefix + r),
        None => None,
    }
}

/// Decodes the text between the double quotes of an attribute, as a
/// parser of the serialized output does: entities become their characters,
/// and a raw `"` or `<` is malformed.
pub fn unescape_attr(s: &str) -> (r: Option<String>)
    ensures
        match r {
            Some(v) => spec_unescape(s@) == Some(v@),
            None => spec_unescape(s@) is None,
        },
{
    let n = s.unicode_len();
    let mut out = String::new();
    let mut i: usize = 0;
    proof {
        assert(s@.skip(0) =~= s@);
    }
    while i < n
        invariant
            i <= n,
            n == s@.len(),
            spec_unescape(s@) == prepend_unescaped(out@, spec_unescape(s@.skip(i as int))),
        decreases n - i,
    {
        let ghost tail = s@.skip(i as int);
        proof {
            assert(forall|k: int| 0 <= k < tail.len() ==> tail[k] == s@[i + k]);
        }
        let c = s.get_char(i);
        let ghost out0 = out@;
        if c == '&' {
            if n - i >= 6 && s.get_char(i + 1) == 'q' && s.get_char(i + 2) == 'u' && s.get_char(
                i + 3,
            ) == 'o' && s.get_char(i + 4) == 't' && s.get_char(i + 5) == ';' {
                out.append("\"");
                proof {
                    reveal_strlit("\"");
                    assert(("\"")@ =~= seq!['"']);
                    assert(tail.take(6) =~= quot_entity());
                    assert(tail.skip(6) =~= s@.skip(i as int + 6));
                    lemma_prepend_assoc(out0, seq!['"'], spec_unescape(tail.skip(6)));
                    assert(out@ =~= out0 + seq!['"']);
                }
                i = i + 6;
            } else if n - i >= 5 && s.get_char(i + 1) == 'a' && s.get_char(i + 2) == 'm'
                && s.get_char(i + 3) == 'p' && s.get_char(i + 4) == ';' {
                out.append("&");
                proof {
                    reveal_strlit("&");
                    assert(("&")@ =~= seq!['&']);
                    assert(tail.len() >= 6 ==> tail.take(6) != quot_entity()) by {
                        if tail.len() >= 6 && tail.take(6) == quot_entity() {
                            assert(tail.take(6)[1] == 'q');
                        }
                    }
                    assert(tail.take(5) =~= amp_entity());
                    assert(tail.skip(5) =~= s@.skip(i as int + 5));
                    lemma_prepend_assoc(out0, seq!['&'], spec_unescape(tail.skip(5)));
                    assert(out@ =~= out0 + seq!['&']);
                }
                i = i + 5;
            } else if n - i >= 6 && s.get_char(i + 1) == 'a' && s.get_char(i + 2) == 'p'
                && s.get_char(i + 3) == 'o' && s.get_char(i + 4) == 's' && s.get_char(i + 5)
                == ';' {
                out.append("'");
                proof {
                    reveal_strlit("'");
                    assert(("'")@ =~= seq!['\'']);
                    assert(tail.len() >= 6 ==> tail.take(6) != quot_entity()) by {
                        if tail.len() >= 6 && tail.take(6) == quot_entity() {
                            assert(tail.take(6)[1] == 'q');
                        }
                    }
                    assert(tail.len() >= 5 ==> tail.take(5) != amp_entity()) by {
                        if tail.len() >= 5 && tail.take(5) == amp_entity() {
                            assert(tail.take(5)[2] == 'm');
                        }
                    }
                    assert(tail.take(6) =~= apos_entity());
                    assert(tail.skip(6) =~= s@.skip(i as int + 6));
                    lemma_prepend_assoc(out0, seq!['\''], spec_unescape(tail.skip(6)));
                    assert(out@ =~= out0 + seq!['\'']);
                }
                i = i + 6;
            } else if n - i >= 4 && s.get_char(i + 1) == 'l' && s.get_char(i + 2) == 't'
                && s.get_char(i + 3) == ';' {
                out.append("<");
                proof {
                    reveal_strlit("<");
                    assert(("<")@ =~= seq!['<']);
                    assert(tail.len() >= 6 ==> tail.take(6) != quot_entity()) by {
                        if tail.len() >= 6 && tail.take(6) == quot_entity() {
                            assert(tail.take(6)[1] == 'q');
                        }
                    }
                    assert(tail.len() >= 5 ==> tail.take(5) != amp_entity()) by {
                        if tail.len() >= 5 && tail.take(5) == amp_entity() {
                            assert(tail.take(5)[1] == 'a');
                        }
                    }
                    assert(tail.len() >= 6 ==> tail.take(6) != apos_entity()) by {
                        if tail.len() >= 6 && tail.take(6) == apos_entity() {
                            assert(tail.take(6)[1] == 'a');
                        }
                    }
                    assert(tail.take(4) =~= lt_entity());
                    assert(tail.skip(4) =~= s@.skip(i as int + 4));
                    lemma_prepend_assoc(out0, seq!['<'], spec_unescape(tail.skip(4)));
                    assert(out@ =~= out0 + seq!['<']);
                }
                i = i + 4;
            } else if n - i >= 4 && s.get_char(i + 1) == 'g' && s.get_char(i + 2) == 't'
                && s.get_char(i + 3) == ';' {
                out.append(">");
                proof {
                    reveal_strlit(">");
                    assert((">")@ =~= seq!['>']);
                    assert(tail.len() >= 6 ==> tail.take(6) != quot_entity()) by {
                        if tail.len() >= 6 && tail.take(6) == quot_entity() {
                            assert(tail.take(6)[1] == 'q');
                        }
                    }
                    assert(tail.len() >= 5 ==> tail.take(5) != amp_entity()) by {
                        if tail.len() >= 5 && tail.take(5) == amp_entity() {
                            assert(tail.take(5)[1] == 'a');
                        }
                    }
                    assert(tail.len() >= 6 ==> tail.take(6) != apos_entity()) by {
                        if tail.len() >= 6 && tail.take(6) == apos_entity() {
                            assert(tail.take(6)[1] == 'a');
                        }
                    }
                    assert(tail.len() >= 4 ==> tail.take(4) != lt_entity()) by {
                        if tail.len() >= 4 && tail.take(4) == lt_entity() {
                            assert(tail.take(4)[1] == 'l');
                        }
                    }
                    assert(tail.take(4) =~= gt_entity());
                    assert(tail.skip(4) =~= s@.skip(i as int + 4));
                    lemma_prepend_assoc(out0, seq!['>'], spec_unescape(tail.skip(4)));
                    assert(out@ =~= out0 + seq!['>']);
                }
                i = i + 4;
            } else {
                proof {
                    assert(tail.len() >= 6 ==> tail.take(6) != quot_entity()) by {
                        if tail.len() >= 6 && tail.take(6) == quot_entity() {
                            assert(tail.take(6)[1] == 'q' && tail.take(6)[2] == 'u' && tail.take(
                                6,
                            )[3] == 'o' && tail.take(6)[4] == 't' && tail.take(6)[5] == ';');
                        }
                    }
                    assert(tail.len() >= 5 ==> tail.take(5) != amp_entity()) by {
                        if tail.len() >= 5 && tail.take(5) == amp_entity() {
                            assert(tail.take(5)[1] == 'a' && tail.take(5)[2] == 'm' && tail.take(
                                5,
                            )[3] == 'p' && tail.take(5)[4] == ';');
                        }
                    }
                    assert(tail.len() >= 6 ==> tail.take(6) != apos_entity()) by {
                        if tail.len() >= 6 && tail.take(6) == apos_entity() {
                            assert(tail.take(6)[1] == 'a' && tail.take(6)[2] == 'p' && tail.take(
                                6,
                            )[3] == 'o' && tail.take(6)[4] == 's' && tail.take(6)[5] == ';');
                        }
                    }
                    assert(tail.len() >= 4 ==> tail.take(4) != lt_entity()) by {
                        if tail.len() >= 4 && tail.take(4) == lt_entity() {
                            assert(tail.take(4)[1] == 'l' && tail.take(4)[2] == 't' && tail.take(
                                4,
                            )[3] == ';');
                        }
                    }
                    assert(tail.len() >= 4 ==> tail.take(4) != gt_entity()) by {
                        if tail.len() >= 4 && tail.take(4) == gt_entity() {
                            assert(tail.take(4)[1] == 'g' && tail.take(4)[2] == 't' && tail.take(
                                4,
                            )[3] == ';');
                        }
                    }
                    assert(spec_unescape(tail) is None);
                }
                return None;
            }
        } else if c == '"' || c == '<' {
            proof {
                assert(spec_unescape(tail) is None);
            }
            return None;
        } else {
            let piece = s.substring_char(i, i + 1);
            out.append(piece);
            proof {
                assert(piece@ =~= seq![tail[0]]);
                assert(tail.skip(1) =~= s@.skip(i as int + 1));
                lemma_prepend_assoc(out0, seq![tail[0]], spec_unescape(tail.skip(1)));
                assert(out@ =~= out0 + seq![tail[0]]);
            }
            i = i + 1;
        }
    }
    proof {
        assert(s@.skip(n as int) =~= Seq::<char>::empty());
        assert(spec_unescape(s@) == Some(out@ + Seq::<char>::empty()));
        assert(out@ + Seq::<char>::empty() =~= out@);
    }
    Some(out)
}

proof fn lemma_prepend_assoc(a: Seq<char>, b: Seq<char>, rest: Option<Seq<char>>)
    ensures
        prepend_unescaped(a, prepend_unescaped(b, rest)) == prepend_unescaped(a + b, rest),
{
    match rest {
        Some(r) => {
            assert(a + (b + r) =~= (a + b) + r);
        },
        None => {},
    }
}

/// The XML declaration header.
pub open spec fn xml_header() -> Seq<char> {
    seq![
        '<',
        '?',
        'x',
        'm',
        'l',
        ' ',
        'v',
        'e',
        'r',
        's',
        'i',
        'o',
        'n',
        '=',
        '"',
        '1',
        '.',
        '0',
        '"',
        '?',
        '>',
    ]
}

/// The opening of the single root element, on a line of its own.
pub open spec fn root_open() -> Seq<char> {
    seq!['\n', '<', 't', 'a', 'g', 's', '>']
}

/// The closing of the single root element, on a line of its own.
pub open spec fn root_close() -> Seq<char> {
    seq!['\n', '<', '/', 't', 'a', 'g', 's', '>']
}

/// The text standing before the name attribute of a tag record: a line
/// break, four spaces of indentation, and the element opening.
pub open spec fn record_open() -> Seq<char> {
    seq!['\n', ' ', ' ', ' ', ' ', '<', 't', 'a', 'g', ' ', 'n', 'a', 'm', 'e', '=', '"']
}

/// The text standing between the name attribute and the value attribute.
pub open spec fn record_mid() -> Seq<char> {
    seq!['"', ' ', 'v', 'a', 'l', 'u', 'e', '=', '"']
}

/// The text closing a tag record.
pub open spec fn record_close() -> Seq<char> {
    seq!['"', '/', '>']
}

/// One empty tag element carrying the pair as attributes, the value
/// escaped.
pub open spec fn spec_tag_record(name: Seq<char>, value: Seq<char>) -> Seq<char> {
    record_open() + name + record_mid() + spec_escape(value) + record_close()
}

/// The concatenation of the tag records of all pairs, in order.
pub open spec fn spec_records(pairs: Seq<(Seq<char>, Seq<char>)>) -> Seq<char>
    decreases pairs.len(),
{
    if pairs.len() == 0 {
        Seq::empty()
    } else {
        spec_tag_record(pairs[0].0, pairs[0].1) + spec_records(pairs.skip(1))
    }
}

/// The whole serialized document for the given (name, value) pairs:
/// declaration, root element, one record per pair. A function of the
/// pairs alone, so identical input yields identical output.
pub open spec fn spec_serialize(pairs: Seq<(Seq<char>, Seq<char>)>) -> Seq<char> {
    xml_header() + root_open() + spec_records(pairs) + root_close()
}

pub proof fn lemma_records_take_snoc(pairs: Seq<(Seq<char>, Seq<char>)>, i: int)
    requires
        0 <= i < pairs.len(),
    ensures
        spec_records(pairs.take(i + 1)) == spec_records(pairs.take(i)) + spec_tag_record(
            pairs[i].0,
            pairs[i].1,
        ),
    decreases i,
{
    if i == 0 {
        assert(pairs.take(1).skip(1) =~= Seq::<(Seq<char>, Seq<char>)>::empty());
        assert(spec_records(pairs.take(1)) == spec_tag_record(pairs[0].0, pairs[0].1)
            + spec_records(Seq::<(Seq<char>, Seq<char>)>::empty()));
        assert(spec_records(pairs.take(0)) + spec_tag_record(pairs[0].0, pairs[0].1)
            =~= spec_tag_record(pairs[0].0, pairs[0].1) + spec_records(
            Seq::<(Seq<char>, Seq<char>)>::empty(),
        ));
    } else {
        let rest = pairs.skip(1);
        lemma_records_take_snoc(rest, i - 1);
        assert(pairs.take(i + 1).skip(1) =~= rest.take(i));
        assert(pairs.take(i).skip(1) =~= rest.take(i - 1));
        assert(pairs.take(i + 1)[0] == pairs[0]);
        assert(pairs.take(i)[0] == pairs[0]);
        let head = spec_tag_record(pairs[0].0, pairs[0].1);
        assert(rest[i - 1] == pairs[i]);
        assert(head + (spec_records(rest.take(i - 1)) + spec_tag_record(pairs[i].0, pairs[i].1))
            =~= (head + spec_records(rest.take(i - 1))) + spec_tag_record(
            pairs[i].0,
            pairs[i].1,
        ));
    }
}

/// Starts a document: the declaration header and the root opening.
pub fn begin_document() -> (r: String)
    ensures
        r@ == xml_header() + root_open(),
{
    let mut out = ("<?xml version=\"1.0\"?>").to_owned();
    out.append("\n<tags>");
    proof {
        reveal_strlit("<?xml version=\"1.0\"?>");
        reveal_strlit("\n<tags>");
        assert(("<?xml version=\"1.0\"?>")@ =~= xml_header());
        assert(("\n<tags>")@ =~= root_open());
    }
    out
}

/// Appends one tag record with the given name and the escaped value.
pub fn append_record(out: &mut String, name: &str, value: &str)
    ensures
        final(out)@ == old(out)@ + spec_tag_record(name@, value@),
{
    out.append("\n    <tag name=\"");
    out.append(name);
    out.append("\" value=\"");
    let escaped = escape_attr(value);
    out.append(escaped.as_str());
    out.append("\"/>");
    proof {
        reveal_strlit("\n    <tag name=\"");
        reveal_strlit("\" value=\"");
        reveal_strlit("\"/>");
        assert(("\n    <tag name=\"")@ =~= record_open());
        assert(("\" value=\"")@ =~= record_mid());
        assert(("\"/>")@ =~= record_close());
        assert(out@ =~= old(out)@ + spec_tag_record(name@, value@));
    }
}

/// Ends a document with the root closing.
pub fn end_document(out: &mut String)
    ensures
        final(out)@ == old(out)@ + root_close(),
{
    out.append("\n</tags>");
    proof {
        reveal_strlit("\n</tags>");
        assert(("\n</tags>")@ =~= root_close());
        assert(out@ =~= old(out)@ + root_close());
    }
}

/// Builds the attribute-escaped form of a string.
pub fn escape_attr(s: &str) -> (r: String)
    ensures
        r@ == spec_escape(s@),
{
    let n = s.unicode_len();
    let mut out = String::new();
    let mut i: usize = 0;
    while i < n
        invariant
            i <= n,
            n == s@.len(),
            out@ == spec_escape(s@.take(i as int)),
        decreases n - i,
    {
        let c = s.get_char(i);
        if c == '"' {
            out.append("&quot;");
            proof {
                reveal_strlit("&quot;");
                assert("&quot;"@ =~= quot_entity());
            }
        } else if c == '&' {
            out.append("&amp;");
            proof {
                reveal_strlit("&amp;");
                assert("&amp;"@ =~= amp_entity());
            }
        } else if c == '\'' {
            out.append("&apos;");
            proof {
                reveal_strlit("&apos;");
                assert("&apos;"@ =~= apos_entity());
            }
        } else if c == '<' {
            out.append("&lt;");
            proof {
                reveal_strlit("&lt;");
                assert("&lt;"@ =~= lt_entity());
            }
        } else if c == '>' {
            out.append("&gt;");
            proof {
                reveal_strlit("&gt;");
                assert("&gt;"@ =~= gt_entity());
            }
        } else {
            let piece = s.substring_char(i, i + 1);
            out.append(piece);
            proof {
                assert(piece@ =~= seq![s@[i as int]]);
            }
        }
        proof {
            lemma_escape_take_snoc(s@, i as int);
        }
        i = i + 1;
    }
    proof {
        assert(s@.take(n as int) =~= s@);
    }
    out
}

} // verus!
