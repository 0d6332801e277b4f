//! Domain names in canonical Unicode form, and the validator that makes them.

use vstd::prelude::*;
use vstd::utf8::encode_utf8;
use crate::error::{DiveError, Violation};
use crate::labels::{count_dots, dot_count, labels, last_label, lemma_label_count, split_labels};
use crate::util::Range;

verus! {

/// The Unicode form that UTS #46 processing gives a domain name, with the
/// deny list of the URL standard and no restriction on hyphens; `None` where
/// processing meets an error.
pub uninterp spec fn uts46_unicode(domain: Seq<char>) -> Option<Seq<char>>;

/// The ASCII (Punycode) form that the domain-to-ASCII algorithm gives a
/// domain name, with the deny list of the URL standard; `None` where it
/// fails.
pub uninterp spec fn uts46_ascii(domain: Seq<char>) -> Option<Seq<char>>;

/// Calls `idna::uts46::Uts46::to_unicode` on the bytes of `domain`, with
/// `AsciiDenyList::URL` and `Hyphens::Allow`. Nothing is proved of this call:
/// its outcome is taken to depend on `domain` alone and is what
/// `uts46_unicode` names, the text where the call reports no error.
#[verifier::external_body]
fn idna_to_unicode(domain: &str) -> (r: Result<String, idna::Errors>)
    ensures
        match r {
            Ok(normalized) => uts46_unicode(domain@) == Some(normalized@),
            Err(_) => uts46_unicode(domain@) is None,
        },
{
    let (normalized, res) = idna::uts46::Uts46::default().to_unicode(
        domain.as_bytes(),
        idna::AsciiDenyList::URL,
        idna::uts46::Hyphens::Allow,
    );
    match res {
        Ok(()) => Ok(normalized.into_owned()),
        Err(e) => Err(e),
    }
}

/// Calls `idna::domain_to_ascii_cow` on the bytes of `domain`, with
/// `AsciiDenyList::URL`. Nothing is proved of this call: its outcome is taken
/// to depend on `domain` alone and is what `uts46_ascii` names.
#[verifier::external_body]
fn idna_to_ascii(domain: &str) -> (r: Result<String, idna::Errors>)
    ensures
        match r {
            Ok(ascii) => uts46_ascii(domain@) == Some(ascii@),
            Err(_) => uts46_ascii(domain@) is None,
        },
{
    match idna::domain_to_ascii_cow(domain.as_bytes(), idna::AsciiDenyList::URL) {
        Ok(ascii) => Ok(ascii.into_owned()),
        Err(e) => Err(e),
    }
}

/// The canonical Unicode form of `domain`, or the error that normalisation
/// failed.
pub fn parse_domain_unicode(domain: &str) -> (r: Result<String, DiveError>)
    ensures
        match r {
            Ok(normalized) => uts46_unicode(domain@) == Some(normalized@),
            Err(e) => uts46_unicode(domain@) is None && e@ == Violation::NormalizationFailed,
        },
{
    match idna_to_unicode(domain) {
        Ok(normalized) => Ok(normalized),
        Err(source) => Err(DiveError::idna_to_ascii_failed(source)),
    }
}

/// The ASCII (Punycode) form of `domain`, or the error that conversion
/// failed.
pub fn parse_domain_ascii(domain: &str) -> (r: Result<String, DiveError>)
    ensures
        match r {
            Ok(ascii) => uts46_ascii(domain@) == Some(ascii@),
            Err(e) => uts46_ascii(domain@) is None && e@ == Violation::NormalizationFailed,
        },
{
    match idna_to_ascii(domain) {
        Ok(ascii) => Ok(ascii),
        Err(source) => Err(DiveError::idna_to_ascii_failed(source)),
    }
}

/// How many bytes the text `s` takes in UTF-8.
pub open spec fn utf8_len(s: Seq<char>) -> nat {
    encode_utf8(s).len()
}

/// A domain name that a validator has accepted, in canonical Unicode form.
/// It keeps no record of the validator that made it.
#[derive(Debug, Clone, PartialEq, Eq)]
pub struct Domain(String);

impl View for Domain {
    type V = Seq<char>;

    closed spec fn view(&self) -> Seq<char> {
        self.0@
    }
}

/// What a validation gives, as plain values: the accepted text or what is
/// wrong.
pub open spec fn outcome_of(r: Result<Domain, DiveError>) -> Result<Seq<char>, Violation> {
    match r {
        Ok(domain) => Ok(domain@),
        Err(e) => Err(e@),
    }
}

impl Domain {
    /// Validates `domain` with no constraint: the result is its canonical
    /// form wherever normalisation succeeds.
    pub fn new(domain: &str) -> (r: Result<Domain, DiveError>)
        ensures
            outcome_of(r) == match uts46_unicode(domain@) {
                Some(normalized) => Ok::<Seq<char>, Violation>(normalized),
                None => Err(Violation::NormalizationFailed),
            },
    {
        DomainValidator::default().validate(domain)
    }

    /// The text of the domain.
    pub fn as_str(&self) -> (s: &str)
        ensures
            s@ == self@,
    {
        self.0.as_str()
    }

    /// The text of the domain, as Unicode.
    pub fn to_text(&self) -> (s: String)
        ensures
            s@ == self@,
    {
        self.0.clone()
    }

    /// The ASCII (Punycode) form of the domain, derived anew from its text.
    pub fn to_punycode(&self) -> (r: Result<String, DiveError>)
        ensures
            match r {
                Ok(ascii) => uts46_ascii(self@) == Some(ascii@),
                Err(e) => uts46_ascii(self@) is None && e@ == Violation::NormalizationFailed,
            },
    {
        parse_domain_ascii(self.0.as_str())
    }

    /// The root of the domain: its last label. Every text has one, so the
    /// result is never `None`.
    pub fn root(&self) -> (r: Option<String>)
        ensures
            r matches Some(root) && root@ == last_label(self@),
    {
        let mut parts = split_labels(self.0.as_str());
        parts.pop()
    }

    /// The levels of the domain: the number of dots in it, which is one
    /// less than the number of its labels.
    pub fn levels(&self) -> (n: usize)
        ensures
            n == dot_count(self@),
            n + 1 == labels(self@).len(),
    {
        proof {
            lemma_label_count(self@);
        }
        count_dots(self.0.as_str())
    }
}

/// Three constraints on a domain name, each of them there or not.
#[derive(Debug, Clone, PartialEq, Eq)]
pub struct DomainValidator {
    /// The required root: the last label.
    pub root: Option<String>,
    /// The range in which the number of labels must lie, the root counted.
    pub levels: Option<Range>,
    /// The range in which the length of the name, in bytes of UTF-8, must
    /// lie.
    pub length: Option<Range>,
}

impl DomainValidator {
    /// The root check passes on the canonical text `normalized`.
    pub open spec fn root_passes(&self, normalized: Seq<char>) -> bool {
        self.root matches Some(expected) ==> last_label(normalized) == expected@
    }

    /// The check of the number of labels passes on `normalized`.
    pub open spec fn levels_pass(&self, normalized: Seq<char>) -> bool {
        self.levels matches Some(range) ==> range.contains(labels(normalized).len() as usize)
    }

    /// The check of the length passes on `normalized`.
    pub open spec fn length_passes(&self, normalized: Seq<char>) -> bool {
        self.length matches Some(range) ==> range.contains(utf8_len(normalized) as usize)
    }

    /// What the validator decides on the canonical text `normalized`: the
    /// first check that fails, in the order root, levels, length, gives the
    /// error; where none fails the text is accepted.
    pub open spec fn verdict(&self, normalized: Seq<char>) -> Result<Seq<char>, Violation> {
        if !self.root_passes(normalized) {
            Err(
                Violation::RootMismatch {
                    expected: self.root.unwrap()@,
                    actual: last_label(normalized),
                },
            )
        } else if !self.levels_pass(normalized) {
            Err(
                Violation::LevelsOutOfRange {
                    actual: labels(normalized).len() as usize,
                    expected_range: self.levels.unwrap(),
                },
            )
        } else if !self.length_passes(normalized) {
            Err(
                Violation::LengthOutOfRange {
                    actual: utf8_len(normalized) as usize,
                    expected_range: self.length.unwrap(),
                },
            )
        } else {
            Ok(normalized)
        }
    }

    /// A validator with the given constraints.
    pub fn new(root: Option<String>, levels: Option<Range>, length: Option<Range>) -> (v: Self)
        ensures
            v == (DomainValidator { root, levels, length }),
    {
        DomainValidator { root, levels, length }
    }

    /// Validates a domain name: normalises it to Unicode and holds the
    /// result against the constraints.
    pub fn validate(&self, maybe_domain: &str) -> (r: Result<Domain, DiveError>)
        ensures
            outcome_of(r) == match uts46_unicode(maybe_domain@) {
                Some(normalized) => self.verdict(normalized),
                None => Err(Violation::NormalizationFailed),
            },
    {
        match parse_domain_unicode(maybe_domain) {
            Ok(normalized) => self.check(normalized),
            Err(e) => Err(e),
        }
    }

    /// Holds a text that is already in canonical form against the
    /// constraints, and makes it a domain where they are met.
    pub fn check(&self, normalized: String) -> (r: Result<Domain, DiveError>)
        ensures
            outcome_of(r) == self.verdict(normalized@),
    {
        let parts = split_labels(normalized.as_str());
        if parts.len() == 0 {
            return Err(DiveError::domain_segments_not_valid());
        }
        if let Some(expected_root) = self.root.as_ref() {
            let actual_root = &parts[parts.len() - 1];
            if !(*actual_root == *expected_root) {
                return Err(
                    DiveError::domain_root_mismatch(expected_root.clone(), actual_root.clone()),
                );
            }
        }
        if let Some(expected_levels) = self.levels.as_ref() {
            let actual_level: usize = parts.len();
            if !expected_levels.includes(&actual_level) {
                return Err(DiveError::domain_levels_out_of_range(*expected_levels, actual_level));
            }
        }
        if let Some(expected_length) = self.length.as_ref() {
            let actual_length: usize = normalized.as_str().len();
            if !expected_length.includes(&actual_length) {
                return Err(DiveError::domain_length_out_of_range(*expected_length, actual_length));
            }
        }
        Ok(Domain(normalized))
    }
}

impl Default for DomainValidator {
    /// No constraint: any root, any number of labels, any length.
    fn default() -> (v: Self)
        ensures
            v == (DomainValidator { root: None, levels: None, length: None }),
    {
        DomainValidator::new(None, None, None)
    }
}

/// A validator without constraints accepts every canonical text as it
/// stands.
pub proof fn lemma_unconstrained_accepts(v: DomainValidator, normalized: Seq<char>)
    requires
        v.root is None,
        v.levels is None,
        v.length is None,
    ensures
        v.verdict(normalized) == Ok::<Seq<char>, Violation>(normalized),
{
}

/// Validating an accepted text once more accepts it unchanged, as far as
/// normalisation leaves its own results alone: where `normalized` is the
/// canonical form of `raw`, is accepted by `v` and is its own canonical
/// form, what `validate` gives for it is again `normalized`.
pub proof fn lemma_revalidation_is_stable(
    v: DomainValidator,
    raw: Seq<char>,
    normalized: Seq<char>,
)
    requires
        uts46_unicode(raw) == Some(normalized),
        v.verdict(normalized) is Ok,
        uts46_unicode(normalized) == Some(normalized),
    ensures
        (match uts46_unicode(normalized) {
            Some(again) => v.verdict(again),
            None => Err(Violation::NormalizationFailed),
        }) == Ok::<Seq<char>, Violation>(normalized),
{
}

/// A required root that is the last label of the text never gives a root
/// mismatch, and with no other constraint the text is accepted.
pub proof fn lemma_true_root_passes(v: DomainValidator, normalized: Seq<char>)
    requires
        v.root matches Some(expected) && expected@ == last_label(normalized),
    ensures
        !(v.verdict(normalized) matches Err(Violation::RootMismatch { .. })),
        v.levels is None && v.length is None ==> v.verdict(normalized) == Ok::<
            Seq<char>,
            Violation,
        >(normalized),
{
}

/// A required root that is not the last label of the text gives a root
/// mismatch that names both, whatever the other constraints are.
pub proof fn lemma_other_root_fails(v: DomainValidator, normalized: Seq<char>)
    requires
        v.root matches Some(expected) && expected@ != last_label(normalized),
    ensures
        v.verdict(normalized) == Err::<Seq<char>, Violation>(
            Violation::RootMismatch {
                expected: v.root.unwrap()@,
                actual: last_label(normalized),
            },
        ),
{
}

/// A range of levels that holds the number of labels never gives a levels
/// error, and the text is accepted where the other two checks pass.
pub proof fn lemma_levels_in_range_pass(v: DomainValidator, normalized: Seq<char>)
    requires
        v.levels matches Some(range) && range.contains(labels(normalized).len() as usize),
    ensures
        !(v.verdict(normalized) matches Err(Violation::LevelsOutOfRange { .. })),
        v.root_passes(normalized) && v.length_passes(normalized) ==> v.verdict(normalized) == Ok::<
            Seq<char>,
            Violation,
        >(normalized),
{
}

/// A range of levels that does not hold the number of labels gives, once
/// the root check has passed, a levels error with that number and that range.
pub proof fn lemma_levels_out_of_range_fail(v: DomainValidator, normalized: Seq<char>)
    requires
        v.root_passes(normalized),
        v.levels matches Some(range) && !range.contains(labels(normalized).len() as usize),
    ensures
        v.verdict(normalized) == Err::<Seq<char>, Violation>(
            Violation::LevelsOutOfRange {
                actual: labels(normalized).len() as usize,
                expected_range: v.levels.unwrap(),
            },
        ),
{
}

/// A range of lengths that holds the length of the text never gives a
/// length error, and the text is accepted where the other two checks pass.
pub proof fn lemma_length_in_range_passes(v: DomainValidator, normalized: Seq<char>)
    requires
        v.length matches Some(range) && range.contains(utf8_len(normalized) as usize),
    ensures
        !(v.verdict(normalized) matches Err(Violation::LengthOutOfRange { .. })),
        v.root_passes(normalized) && v.levels_pass(normalized) ==> v.verdict(normalized) == Ok::<
            Seq<char>,
            Violation,
        >(normalized),
{
}

/// A range of lengths that does not hold the length of the text gives, once
/// the checks of root and levels have passed, a length error with that
/// length and that range.
pub proof fn lemma_length_out_of_range_fails(v: DomainValidator, normalized: Seq<char>)
    requires
        v.root_passes(normalized),
        v.levels_pass(normalized),
        v.length matches Some(range) && !range.contains(utf8_len(normalized) as usize),
    ensures
        v.verdict(normalized) == Err::<Seq<char>, Violation>(
            Violation::LengthOutOfRange {
                actual: utf8_len(normalized) as usize,
                expected_range: v.length.unwrap(),
            },
        ),
{
}

/// No verdict says that the labels are missing: every text has a label.
pub proof fn lemma_verdict_never_lacks_segments(v: DomainValidator, normalized: Seq<char>)
    ensures
        v.verdict(normalized) != Err::<Seq<char>, Violation>(Violation::SegmentsNotValid),
        labels(normalized).len() >= 1,
{
    lemma_label_count(normalized);
}

} // verus!
