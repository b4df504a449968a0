//! Locale-aware comparison of strings, done by ICU collation.

use icu::collator::{Collator, CollatorOptions, Strength};
use icu::locid::Locale;
use std::cmp::Ordering;
use vstd::prelude::*;

use crate::error::Error;

verus! {

/// The collator of ICU. Nothing is known of what is inside one.
#[verifier::external_type_specification]
#[verifier::external_body]
pub struct ExCollator(Collator);

/// Whether `tag` is a well-formed locale tag: a language, optionally followed
/// by script, region, variants and extensions.
pub uninterp spec fn is_locale_tag(tag: Seq<char>) -> bool;

/// Whether a collator can be had for the locale that `tag` names, one that
/// compares at secondary strength where `ignore_case`. None can be had for a
/// tag that is malformed.
pub uninterp spec fn has_collation(tag: Seq<char>, ignore_case: bool) -> bool;

/// The tag and the strength that a collator was built for: the tag of its
/// locale, and whether it compares at secondary strength.
pub uninterp spec fn built_for(collator: Collator) -> (Seq<char>, bool);

/// How the collation of the locale `locale` orders `a` and `b`. With
/// `ignore_case` the strings are compared at secondary strength, which looks
/// at base letters and accents only.
pub uninterp spec fn collation_order(
    locale: Seq<char>,
    ignore_case: bool,
    a: Seq<char>,
    b: Seq<char>,
) -> Ordering;

/// How many of the differences between two strings a collation looks at.
#[derive(Clone, Copy, Debug, PartialEq, Eq)]
pub enum CollationStrength {
    /// The strength that the locale asks for.
    LocaleDefault,
    /// Base letters and accents, but not case.
    Secondary,
}

/// What a [`LocaleCollator`] was made from.
pub struct CollationView {
    pub locale: Seq<char>,
    pub ignore_case: bool,
}

/// A collator for one locale, together with the tag and the strength it was
/// built for.
pub struct LocaleCollator {
    collator: Collator,
    locale: String,
    ignore_case: bool,
}

impl LocaleCollator {
    /// The tag and the strength are those that the collator was built for.
    #[verifier::type_invariant]
    spec fn well_formed(self) -> bool {
        built_for(self.collator) == (self.locale@, self.ignore_case)
    }
}

impl View for LocaleCollator {
    type V = CollationView;

    closed spec fn view(&self) -> CollationView {
        CollationView { locale: self.locale@, ignore_case: self.ignore_case }
    }
}

/// `Locale::try_from_bytes` on the bytes of `tag`, which succeeds unless the
/// tag is malformed.
#[verifier::external_body]
fn is_well_formed(tag: &str) -> (r: bool)
    ensures
        r == is_locale_tag(tag@),
{
    Locale::try_from_bytes(tag.as_bytes()).is_ok()
}

/// `Collator::try_new` for the locale that `Locale::try_from_bytes` reads
/// from `tag`, with the strength set as asked and every other option left to
/// the locale. It draws on the collation data that is compiled in, so that
/// the tag and the strength alone decide whether there is a collator.
#[verifier::external_body]
fn new_collator(tag: &str, strength: CollationStrength) -> (r: Option<Collator>)
    ensures
        r is Some <==> has_collation(tag@, strength is Secondary),
        r is Some ==> built_for(r->Some_0) == (tag@, strength is Secondary),
{
    let locale = Locale::try_from_bytes(tag.as_bytes()).ok()?;
    let mut options = CollatorOptions::new();
    options.strength = match strength {
        CollationStrength::LocaleDefault => None,
        CollationStrength::Secondary => Some(Strength::Secondary),
    };
    Collator::try_new(&locale.into(), options).ok()
}

/// `Collator::compare`: the order of the collation that the collator was
/// built for.
#[verifier::external_body]
fn collate(collator: &Collator, a: &str, b: &str) -> (o: Ordering)
    ensures
        o == collation_order(built_for(*collator).0, built_for(*collator).1, a@, b@),
{
    collator.compare(a, b)
}

impl LocaleCollator {
    /// Puts a collator that was built for `tag` at the strength for
    /// `case_insensitive` together with what it was built from; `None` stands
    /// for a collator that could not be built.
    fn assemble(tag: &str, case_insensitive: bool, built: Option<Collator>) -> (r: Result<
        LocaleCollator,
        Error,
    >)
        requires
            built is Some ==> built_for(built->Some_0) == (tag@, case_insensitive),
        ensures
            built is Some ==> r is Ok && r->Ok_0@.locale == tag@ && r->Ok_0@.ignore_case
                == case_insensitive,
            built is None ==> (r matches Err(Error::CollatorUnavailable(t)) && t@ == tag@),
    {
        match built {
            Some(collator) => Ok(
                LocaleCollator {
                    collator,
                    locale: tag.to_owned(),
                    ignore_case: case_insensitive,
                },
            ),
            None => Err(Error::CollatorUnavailable(tag.to_owned())),
        }
    }

    /// How this collator orders `a` and `b`.
    pub fn compare(&self, a: &str, b: &str) -> (o: Ordering)
        ensures
            o == collation_order(self@.locale, self@.ignore_case, a@, b@),
    {
        proof {
            use_type_invariant(self);
        }
        collate(&self.collator, a, b)
    }
}

/// A collator for the locale that `locale_name` names. With
/// `case_insensitive` it compares at secondary strength, so that case makes
/// no difference.
///
/// A malformed tag is refused as [`Error::InvalidLocale`]. A well-formed tag
/// gives the collator where one can be had for it, and else
/// [`Error::CollatorUnavailable`].
pub fn collator_for_locale(locale_name: &str, case_insensitive: bool) -> (r: Result<
    LocaleCollator,
    Error,
>)
    ensures
        r is Ok <==> is_locale_tag(locale_name@) && has_collation(locale_name@, case_insensitive),
        match r {
            Ok(c) => c@.locale == locale_name@ && c@.ignore_case == case_insensitive,
            Err(Error::InvalidLocale(t)) => !is_locale_tag(locale_name@) && t@ == locale_name@,
            Err(Error::CollatorUnavailable(t)) => is_locale_tag(locale_name@) && t@
                == locale_name@,
            Err(_) => false,
        },
{
    if !is_well_formed(locale_name) {
        return Err(Error::InvalidLocale(locale_name.to_owned()));
    }
    let strength = if case_insensitive {
        CollationStrength::Secondary
    } else {
        CollationStrength::LocaleDefault
    };
    LocaleCollator::assemble(locale_name, case_insensitive, new_collator(locale_name, strength))
}

} // verus!
