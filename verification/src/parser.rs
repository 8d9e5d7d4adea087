//! The report parser: from the bytes of one JUnit-style XML file to the
//! `SuiteResult` records of its `<testsuite>` elements.
//!
//! The XML tokenizer itself is an outside capability: [`tokenize`] turns the
//! bytes into a finite sequence of [`XmlToken`] values, and everything after
//! that point is verified. A tokenizer-level error ends the sequence; the
//! suites accumulated before it are kept, never discarded.

use vstd::prelude::*;

use crate::digits::spec_u32_or_zero;
use crate::digits::u32_or_zero;
use crate::suite::SuiteResult;
use crate::suite::SuiteView;

verus! {

/// One attribute of a start tag, reduced to its local name and its value.
pub struct XmlAttr {
    pub name: String,
    pub value: String,
}

/// One event of the XML tokenizer, reduced to what the report parser reads.
pub enum XmlToken {
    /// A start tag, with its local name and its attributes in document order.
    Start { name: String, attrs: Vec<XmlAttr> },
    /// Any other well-formed token (text, end tags, comments, ...).
    Other,
    /// A tokenizer-level parse error; no token follows it.
    Error,
}

/// The token sequence that the XML tokenizer produces on the given bytes.
/// Tokenizing is a function of the bytes alone; its full definition is the
/// tokenizer's grammar, which this library does not restate. [`tokenize`] is
/// the one place that produces a value of it.
pub uninterp spec fn xml_tokens(bytes: Seq<u8>) -> Seq<XmlToken>;

/// Relies on `xml::reader::EventReader`: its event iterator yields each XML
/// token in document order and stops after the first error or the end of the
/// document, so the loop below terminates and an `Error` token can only be
/// last. Each event is converted to the [`XmlToken`] it corresponds to.
#[verifier::external_body]
fn tokenize(bytes: &[u8]) -> (r: Vec<XmlToken>)
    ensures
        r@ == xml_tokens(bytes@),
{
    xml::reader::EventReader::new(bytes).into_iter().map(|ev| match ev {
        Ok(xml::reader::XmlEvent::StartElement { name, attributes, .. }) => XmlToken::Start {
            name: name.local_name,
            attrs: attributes.into_iter().map(|a| XmlAttr {
                name: a.name.local_name,
                value: a.value,
            }).collect(),
        },
        Ok(_) => XmlToken::Other,
        Err(_) => XmlToken::Error,
    }).collect()
}

/// The value of the first attribute named `name`, or `default` when no
/// attribute carries that name.
pub open spec fn spec_attr_value(attrs: Seq<XmlAttr>, name: Seq<char>, default: Seq<char>) -> Seq<
    char,
>
    decreases attrs.len(),
{
    if attrs.len() == 0 {
        default
    } else if attrs[0].name@ == name {
        attrs[0].value@
    } else {
        spec_attr_value(attrs.drop_first(), name, default)
    }
}

/// Looks an attribute up by local name, falling back to `default_value` when
/// it is absent.
pub fn get_attribute_value(
    attributes: &Vec<XmlAttr>,
    attr_name: &str,
    default_value: &str,
) -> (r: String)
    ensures
        r@ == spec_attr_value(attributes@, attr_name@, default_value@),
{
    let want: String = attr_name.to_owned();
    let mut i: usize = 0;
    proof {
        assert(attributes@.skip(0) =~= attributes@);
    }
    while i < attributes.len()
        invariant
            0 <= i <= attributes@.len(),
            want@ == attr_name@,
            spec_attr_value(attributes@.skip(i as int), attr_name@, default_value@)
                == spec_attr_value(attributes@, attr_name@, default_value@),
        decreases attributes@.len() - i,
    {
        proof {
            assert(attributes@.skip(i as int).drop_first() =~= attributes@.skip(i + 1));
            assert(attributes@.skip(i as int)[0] == attributes@[i as int]);
        }
        if attributes[i].name == want {
            return attributes[i].value.clone();
        }
        i = i + 1;
    }
    proof {
        assert(attributes@.skip(attributes@.len() as int) =~= Seq::<XmlAttr>::empty());
    }
    default_value.to_owned()
}

/// The suite that one `<testsuite>` start tag's attributes describe: the
/// `name` attribute or `"Untitled"`, and each counter attribute read
/// leniently, degrading to zero instead of failing.
pub open spec fn spec_suite_of_attrs(attrs: Seq<XmlAttr>) -> SuiteView {
    SuiteView {
        name: spec_attr_value(attrs, "name"@, "Untitled"@),
        tests: spec_u32_or_zero(spec_attr_value(attrs, "tests"@, "0"@)),
        failures: spec_u32_or_zero(spec_attr_value(attrs, "failures"@, "0"@)),
        errors: spec_u32_or_zero(spec_attr_value(attrs, "errors"@, "0"@)),
    }
}

/// Extracts one suite record from a `<testsuite>` start tag's attributes.
pub fn suite_from_attributes(attrs: &Vec<XmlAttr>) -> (r: SuiteResult)
    ensures
        r@ == spec_suite_of_attrs(attrs@),
{
    SuiteResult {
        name: get_attribute_value(attrs, "name", "Untitled"),
        tests: u32_or_zero(get_attribute_value(attrs, "tests", "0").as_str()),
        failures: u32_or_zero(get_attribute_value(attrs, "failures", "0").as_str()),
        errors: u32_or_zero(get_attribute_value(attrs, "errors", "0").as_str()),
    }
}

/// The suites of a token sequence: one record per `testsuite` start tag, in
/// document order, stopping at the first `Error` token and keeping everything
/// before it.
pub open spec fn spec_suites_of(tokens: Seq<XmlToken>) -> Seq<SuiteView>
    decreases tokens.len(),
{
    if tokens.len() == 0 {
        Seq::empty()
    } else {
        match tokens[0] {
            XmlToken::Start { name, attrs } => {
                if name@ == "testsuite"@ {
                    seq![spec_suite_of_attrs(attrs@)] + spec_suites_of(tokens.drop_first())
                } else {
                    spec_suites_of(tokens.drop_first())
                }
            },
            XmlToken::Other => spec_suites_of(tokens.drop_first()),
            XmlToken::Error => Seq::empty(),
        }
    }
}

/// Folds a token sequence into suite records, stopping at the first error
/// token but keeping the records accumulated before it.
pub fn suites_from_tokens(tokens: &Vec<XmlToken>) -> (r: Vec<SuiteResult>)
    ensures
        r.deep_view() == spec_suites_of(tokens@),
{
    let mut out: Vec<SuiteResult> = Vec::new();
    let want: String = "testsuite".to_owned();
    let mut i: usize = 0;
    proof {
        assert(tokens@.skip(0) =~= tokens@);
        assert(out.deep_view() =~= Seq::<SuiteView>::empty());
        assert(out.deep_view() + spec_suites_of(tokens@) =~= spec_suites_of(tokens@));
    }
    while i < tokens.len()
        invariant
            0 <= i <= tokens@.len(),
            want@ == "testsuite"@,
            spec_suites_of(tokens@) == out.deep_view() + spec_suites_of(tokens@.skip(i as int)),
        decreases tokens@.len() - i,
    {
        proof {
            assert(tokens@.skip(i as int).drop_first() =~= tokens@.skip(i + 1));
            assert(tokens@.skip(i as int)[0] == tokens@[i as int]);
        }
        let ghost prev = out.deep_view();
        match &tokens[i] {
            XmlToken::Start { name, attrs } => {
                if *name == want {
                    let s = suite_from_attributes(attrs);
                    out.push(s);
                    proof {
                        assert(out.deep_view() =~= prev.push(s@));
                        assert(prev + seq![s@] + spec_suites_of(tokens@.skip(i + 1)) =~= prev.push(
                            s@,
                        ) + spec_suites_of(tokens@.skip(i + 1)));
                    }
                }
            },
            XmlToken::Other => {},
            XmlToken::Error => {
                proof {
                    assert(spec_suites_of(tokens@.skip(i as int)) =~= Seq::<SuiteView>::empty());
                    assert(out.deep_view() =~= spec_suites_of(tokens@));
                }
                return out;
            },
        }
        i = i + 1;
    }
    proof {
        assert(tokens@.skip(tokens@.len() as int) =~= Seq::<XmlToken>::empty());
        assert(out.deep_view() =~= spec_suites_of(tokens@));
    }
    out
}

/// Parses one report file's bytes: every `<testsuite>` element that the
/// tokenizer reaches before the end of the document or its first error, in
/// document order. Parsing never fails: malformed attributes degrade per
/// suite, and a truncated document keeps the suites already read.
pub fn read_test_suites_from_report(bytes: &[u8]) -> (r: Vec<SuiteResult>)
    ensures
        r.deep_view() == spec_suites_of(xml_tokens(bytes@)),
{
    let tokens = tokenize(bytes);
    suites_from_tokens(&tokens)
}

/// Tokens consumed before a tokenizer error are never discarded: the suites
/// of a token sequence that runs into an error are exactly the suites of the
/// error-free part before it, whatever follows.
pub proof fn lemma_partial_parse_preserved(good: Seq<XmlToken>, junk: Seq<XmlToken>)
    requires
        forall|i: int| 0 <= i < good.len() ==> !(good[i] is Error),
    ensures
        spec_suites_of(good + seq![XmlToken::Error] + junk) == spec_suites_of(good),
    decreases good.len(),
{
    let whole = good + seq![XmlToken::Error] + junk;
    if good.len() == 0 {
        assert(whole[0] is Error);
    } else {
        let rest = good.drop_first();
        assert(forall|i: int| 0 <= i < rest.len() ==> !(#[trigger] rest[i] is Error));
        lemma_partial_parse_preserved(rest, junk);
        assert(whole.drop_first() =~= rest + seq![XmlToken::Error] + junk);
        assert(whole[0] == good[0]);
    }
}

} // verus!
