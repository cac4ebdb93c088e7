//! The numbered templates that lay out Sections 3, 4 and 5.

use vstd::prelude::*;
use crate::assemble::SubMessage;
use crate::error::DecodeError;
use crate::error::TemplateCategory;
use crate::scan::Message;
use crate::scan::MessageModel;
use crate::section::Section;
use crate::section::SectionBody;

verus! {

/// A template as a message names it: the kind of section and the number.
#[derive(Debug, Clone, Copy, PartialEq, Eq, Structural, Hash)]
pub struct TemplateInfo {
    pub category: TemplateCategory,
    pub number: u16,
}

/// The templates that this crate knows, and one variant for all others.
#[derive(Debug, Clone, Copy, PartialEq, Eq)]
pub enum Template {
    /// Grid definition template 3.0: latitude/longitude.
    LatitudeLongitude,
    /// Product definition template 4.0: analysis or forecast at a
    /// horizontal level at a point in time.
    AnalysisOrForecast,
    /// Data representation template 5.0: simple packing.
    SimplePacking,
    /// Data representation template 5.200: run-length packing with level
    /// values.
    RunLengthPacking,
    /// Any other template.
    Unsupported(TemplateInfo),
}

impl TemplateCategory {
    /// The number of the section that a template of this kind lays out.
    pub open spec fn section_number_spec(self) -> u8 {
        match self {
            TemplateCategory::Grid => 3,
            TemplateCategory::Product => 4,
            TemplateCategory::DataRepresentation => 5,
        }
    }

    /// The number of the section that a template of this kind lays out.
    #[verifier::when_used_as_spec(section_number_spec)]
    pub fn section_number(self) -> (n: u8)
        ensures
            n == self.section_number_spec(),
    {
        match self {
            TemplateCategory::Grid => 3,
            TemplateCategory::Product => 4,
            TemplateCategory::DataRepresentation => 5,
        }
    }
}

/// The template that a kind of section and a number name.
pub open spec fn identify_spec(category: TemplateCategory, number: u16) -> Template {
    match category {
        TemplateCategory::Grid => if number == 0 {
            Template::LatitudeLongitude
        } else {
            Template::Unsupported(TemplateInfo { category, number })
        },
        TemplateCategory::Product => if number == 0 {
            Template::AnalysisOrForecast
        } else {
            Template::Unsupported(TemplateInfo { category, number })
        },
        TemplateCategory::DataRepresentation => if number == 0 {
            Template::SimplePacking
        } else if number == 200 {
            Template::RunLengthPacking
        } else {
            Template::Unsupported(TemplateInfo { category, number })
        },
    }
}

/// The known template that a kind of section and a number name, or the
/// error that reports the pair.
pub open spec fn resolve_spec(category: TemplateCategory, number: u16) -> Result<
    Template,
    DecodeError,
> {
    match identify_spec(category, number) {
        Template::Unsupported(_) => Err(DecodeError::UnsupportedTemplate(category, number)),
        known => Ok(known),
    }
}

/// Names the template of a kind of section and a number. A pair that this
/// crate does not know comes back as `Unsupported`, with the pair in it.
pub fn identify(category: TemplateCategory, number: u16) -> (t: Template)
    ensures
        t == identify_spec(category, number),
{
    match category {
        TemplateCategory::Grid => if number == 0 {
            Template::LatitudeLongitude
        } else {
            Template::Unsupported(TemplateInfo { category, number })
        },
        TemplateCategory::Product => if number == 0 {
            Template::AnalysisOrForecast
        } else {
            Template::Unsupported(TemplateInfo { category, number })
        },
        TemplateCategory::DataRepresentation => if number == 0 {
            Template::SimplePacking
        } else if number == 200 {
            Template::RunLengthPacking
        } else {
            Template::Unsupported(TemplateInfo { category, number })
        },
    }
}

/// Looks a template up. Succeeds on the pairs 3.0, 4.0, 5.0 and 5.200, and
/// fails with `UnsupportedTemplate`, which carries the pair, on all others.
pub fn resolve(category: TemplateCategory, number: u16) -> (r: Result<Template, DecodeError>)
    ensures
        r == resolve_spec(category, number),
{
    match identify(category, number) {
        Template::Unsupported(_) => Err(DecodeError::UnsupportedTemplate(category, number)),
        known => Ok(known),
    }
}

/// The template that a section names, if it is one of Sections 3, 4 and 5.
pub open spec fn template_of(section: Section) -> Option<TemplateInfo> {
    match section.body {
        SectionBody::GridDefinition(grid) => Some(
            TemplateInfo { category: TemplateCategory::Grid, number: grid.template },
        ),
        SectionBody::ProductDefinition(product) => Some(
            TemplateInfo { category: TemplateCategory::Product, number: product.template },
        ),
        SectionBody::DataRepresentation(repr) => Some(
            TemplateInfo { category: TemplateCategory::DataRepresentation, number: repr.template },
        ),
        _ => None,
    }
}

/// Whether the template that a section names is one that this crate knows.
/// A section that names no template passes.
pub open spec fn resolve_section_spec(section: Section) -> Result<(), DecodeError> {
    match template_of(section) {
        None => Ok(()),
        Some(t) => match resolve_spec(t.category, t.number) {
            Ok(_) => Ok(()),
            Err(e) => Err(e),
        },
    }
}

/// `seen` with `found` at its end, unless nothing was found or it is in
/// `seen` already.
pub open spec fn noted(seen: Seq<TemplateInfo>, found: Option<TemplateInfo>) -> Seq<TemplateInfo> {
    match found {
        Some(t) => if seen.contains(t) {
            seen
        } else {
            seen.push(t)
        },
        None => seen,
    }
}

/// `seen`, then the templates of the Sections 3, 4 and 5 of one submessage
/// in that order, each unless it is there already.
pub open spec fn noted_submessage(
    seen: Seq<TemplateInfo>,
    sections: Seq<Section>,
    sub: SubMessage,
) -> Seq<TemplateInfo> {
    noted(
        noted(
            noted(seen, template_of(sections[sub.section3 as int])),
            template_of(sections[sub.section4 as int]),
        ),
        template_of(sections[sub.section5 as int]),
    )
}

/// The distinct templates of the first `n` submessages, each at the place
/// where it was first seen.
pub open spec fn templates_prefix(sections: Seq<Section>, subs: Seq<SubMessage>, n: nat) -> Seq<
    TemplateInfo,
>
    decreases n,
{
    if n == 0 {
        Seq::empty()
    } else {
        noted_submessage(templates_prefix(sections, subs, (n - 1) as nat), sections, subs[n - 1])
    }
}

/// The distinct templates of a message in first-seen order.
pub open spec fn list_templates_spec(m: MessageModel) -> Seq<TemplateInfo> {
    templates_prefix(m.sections, m.submessages, m.submessages.len())
}

/// Noting a template keeps what was seen, adds that template, and adds no
/// duplicate.
pub proof fn lemma_noted(seen: Seq<TemplateInfo>, found: Option<TemplateInfo>)
    requires
        seen.no_duplicates(),
    ensures
        noted(seen, found).no_duplicates(),
        found matches Some(t) ==> noted(seen, found).contains(t),
        forall|t: TemplateInfo| seen.contains(t) ==> #[trigger] noted(seen, found).contains(t),
        forall|t: TemplateInfo| #[trigger]
            noted(seen, found).contains(t) ==> seen.contains(t) || found == Some(t),
        seen.is_prefix_of(noted(seen, found)),
{
    if let Some(t) = found {
        if !seen.contains(t) {
            let after = seen.push(t);
            assert(after[seen.len() as int] == t);
            assert forall|u: TemplateInfo| seen.contains(u) implies after.contains(u) by {
                let i = choose|i: int| 0 <= i < seen.len() && seen[i] == u;
                assert(after[i] == u);
            }
        }
    }
}

/// The list of a message's templates holds nothing twice, holds the
/// templates of every submessage counted, and holds nothing else.
pub proof fn lemma_templates_prefix(sections: Seq<Section>, subs: Seq<SubMessage>, n: nat)
    requires
        n <= subs.len(),
    ensures
        templates_prefix(sections, subs, n).no_duplicates(),
        forall|k: int|
            0 <= k < n ==> {
                let sub = #[trigger] subs[k];
                let list = templates_prefix(sections, subs, n);
                &&& template_of(sections[sub.section3 as int]) matches Some(t) ==> list.contains(t)
                &&& template_of(sections[sub.section4 as int]) matches Some(t) ==> list.contains(t)
                &&& template_of(sections[sub.section5 as int]) matches Some(t) ==> list.contains(t)
            },
        forall|t: TemplateInfo| #[trigger]
            templates_prefix(sections, subs, n).contains(t) ==> exists|k: int|
                0 <= k < n && {
                    let sub = #[trigger] subs[k];
                    ||| template_of(sections[sub.section3 as int]) == Some(t)
                    ||| template_of(sections[sub.section4 as int]) == Some(t)
                    ||| template_of(sections[sub.section5 as int]) == Some(t)
                },
    decreases n,
{
    if n > 0 {
        lemma_templates_prefix(sections, subs, (n - 1) as nat);
        let sub = subs[n - 1];
        let s0 = templates_prefix(sections, subs, (n - 1) as nat);
        let t3 = template_of(sections[sub.section3 as int]);
        let t4 = template_of(sections[sub.section4 as int]);
        let t5 = template_of(sections[sub.section5 as int]);
        let s1 = noted(s0, t3);
        let s2 = noted(s1, t4);
        let s3 = noted(s2, t5);
        lemma_noted(s0, t3);
        lemma_noted(s1, t4);
        lemma_noted(s2, t5);
        assert(s3 == templates_prefix(sections, subs, n));
        assert forall|k: int| 0 <= k < n implies {
            let sub = #[trigger] subs[k];
            &&& template_of(sections[sub.section3 as int]) matches Some(t) ==> s3.contains(t)
            &&& template_of(sections[sub.section4 as int]) matches Some(t) ==> s3.contains(t)
            &&& template_of(sections[sub.section5 as int]) matches Some(t) ==> s3.contains(t)
        } by {
            let other = subs[k];
            if let Some(t) = template_of(sections[other.section3 as int]) {
                if k < n - 1 {
                    assert(s0.contains(t));
                }
                assert(s1.contains(t));
                assert(s2.contains(t));
            }
            if let Some(t) = template_of(sections[other.section4 as int]) {
                if k < n - 1 {
                    assert(s0.contains(t));
                    assert(s1.contains(t));
                }
                assert(s2.contains(t));
            }
            if let Some(t) = template_of(sections[other.section5 as int]) {
                if k < n - 1 {
                    assert(s0.contains(t));
                    assert(s1.contains(t));
                    assert(s2.contains(t));
                }
            }
        }
        assert forall|t: TemplateInfo| #[trigger] s3.contains(t) implies exists|k: int|
            0 <= k < n && {
                let sub = #[trigger] subs[k];
                ||| template_of(sections[sub.section3 as int]) == Some(t)
                ||| template_of(sections[sub.section4 as int]) == Some(t)
                ||| template_of(sections[sub.section5 as int]) == Some(t)
            } by {
            assert(s2.contains(t) || t5 == Some(t));
            if s2.contains(t) {
                assert(s1.contains(t) || t4 == Some(t));
                if s1.contains(t) {
                    assert(s0.contains(t) || t3 == Some(t));
                }
            }
            if s0.contains(t) {
                let k = choose|k: int|
                    0 <= k < n - 1 && {
                        let sub = #[trigger] subs[k];
                        ||| template_of(sections[sub.section3 as int]) == Some(t)
                        ||| template_of(sections[sub.section4 as int]) == Some(t)
                        ||| template_of(sections[sub.section5 as int]) == Some(t)
                    };
                assert(0 <= k < n);
            } else {
                assert(subs[n - 1] == sub);
            }
        }
    }
}

fn template_at(section: &Section) -> (t: Option<TemplateInfo>)
    ensures
        t == template_of(*section),
{
    match section.body {
        SectionBody::GridDefinition(grid) => Some(
            TemplateInfo { category: TemplateCategory::Grid, number: grid.template },
        ),
        SectionBody::ProductDefinition(product) => Some(
            TemplateInfo { category: TemplateCategory::Product, number: product.template },
        ),
        SectionBody::DataRepresentation(repr) => Some(
            TemplateInfo { category: TemplateCategory::DataRepresentation, number: repr.template },
        ),
        _ => None,
    }
}

/// Looks up the template that a section names, and fails with
/// `UnsupportedTemplate` if this crate does not know it.
pub fn resolve_section(section: &Section) -> (r: Result<(), DecodeError>)
    ensures
        r == resolve_section_spec(*section),
{
    match template_at(section) {
        None => Ok(()),
        Some(t) => match resolve(t.category, t.number) {
            Ok(_) => Ok(()),
            Err(e) => Err(e),
        },
    }
}

fn note(seen: &mut Vec<TemplateInfo>, found: Option<TemplateInfo>)
    ensures
        final(seen)@ == noted(old(seen)@, found),
{
    if let Some(t) = found {
        let n: usize = seen.len();
        let mut i: usize = 0;
        while i < n
            invariant
                n == seen@.len(),
                i <= n,
                found == Some(t),
                seen@ == old(seen)@,
                forall|k: int| 0 <= k < i ==> seen@[k] != t,
            decreases n - i,
        {
            if seen[i] == t {
                assert(seen@[i as int] == t);
                return ;
            }
            i = i + 1;
        }
        seen.push(t);
    }
}

/// Lists the distinct templates that the submessages of a message name.
///
/// The submessages are taken in order, and of each the templates of its
/// Sections 3, 4 and 5 in that order. A template is listed where it is first
/// met and not again. A template that this crate cannot unpack is listed
/// like any other.
pub fn list_templates(message: &Message) -> (list: Vec<TemplateInfo>)
    requires
        message.wf(),
    ensures
        list@ == list_templates_spec(message@),
        list@.no_duplicates(),
{
    let sections = message.sections();
    let subs = message.submessages();
    let n: usize = subs.len();
    let mut list: Vec<TemplateInfo> = Vec::new();
    let mut i: usize = 0;
    while i < n
        invariant
            message.wf(),
            sections@ == message@.sections,
            subs@ == message@.submessages,
            n == subs@.len(),
            i <= n,
            list@ == templates_prefix(sections@, subs@, i as nat),
        decreases n - i,
    {
        let sub = subs[i];
        assert(crate::assemble::submessage_valid(sections@, subs@[i as int]));
        note(&mut list, template_at(&sections[sub.section3]));
        note(&mut list, template_at(&sections[sub.section4]));
        note(&mut list, template_at(&sections[sub.section5]));
        i = i + 1;
    }
    proof {
        lemma_templates_prefix(sections@, subs@, n as nat);
    }
    list
}

} // verus!
