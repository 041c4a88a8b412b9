use vstd::prelude::*;
use crate::parser::{Item, ParsedFilter, ParsedItem, item_filters_wf};
use crate::pattern::Pattern;

verus! {

/// The color in which a part of an explanation is shown.
#[derive(Debug, Clone, Copy, PartialEq, Eq, Structural)]
pub enum ExplainColor {
    /// A constant.
    Green,
    /// An expression.
    Yellow,
    /// A filter.
    Blue,
}

/// One part of the explanation of a pattern: the byte range of the source that it
/// describes, its color and its description.
#[derive(Debug, PartialEq)]
pub struct Explanation {
    pub range: std::ops::Range<usize>,
    pub color: ExplainColor,
    pub text: String,
}

/// The mathematical content of an [`Explanation`].
pub struct ExplanationView {
    pub start: usize,
    pub end: usize,
    pub color: ExplainColor,
    pub text: Seq<char>,
}

impl View for Explanation {
    type V = ExplanationView;

    open spec fn view(&self) -> ExplanationView {
        ExplanationView { start: self.range.start, end: self.range.end, color: self.color, text: self.text@ }
    }
}

/// The views of a sequence of explanations.
pub open spec fn explanation_views(v: Seq<Explanation>) -> Seq<ExplanationView> {
    v.map_values(|e: Explanation| e@)
}

/// The explanation of a filter.
pub open spec fn filter_part(f: ParsedFilter) -> ExplanationView {
    ExplanationView { start: f.range.start, end: f.range.end, color: ExplainColor::Blue, text: f.value.display() }
}

/// The explanations of the filters of an expression, in order.
pub open spec fn filter_parts(filters: Seq<ParsedFilter>) -> Seq<ExplanationView> {
    filters.map_values(|f: ParsedFilter| filter_part(f))
}

/// The explanations of an item: the item itself when `all` holds (constants in green,
/// expressions in yellow), then each filter of an expression.
pub open spec fn item_parts(item: ParsedItem, all: bool) -> Seq<ExplanationView> {
    let color = match item.value {
        Item::Constant(_) => ExplainColor::Green,
        Item::Expression(_) => ExplainColor::Yellow,
    };
    let head = if all {
        seq![ExplanationView { start: item.range.start, end: item.range.end, color, text: item.value.display() }]
    } else {
        Seq::empty()
    };
    match item.value {
        Item::Constant(_) => head,
        Item::Expression(filters) => head + filter_parts(filters@),
    }
}

/// The explanations of the items, in order.
pub open spec fn explained(items: Seq<ParsedItem>, all: bool) -> Seq<ExplanationView>
    decreases items.len(),
{
    if items.len() == 0 {
        Seq::empty()
    } else {
        explained(items.drop_last(), all) + item_parts(items.last(), all)
    }
}

fn copy_range(r: &std::ops::Range<usize>) -> (c: std::ops::Range<usize>)
    ensures
        c == *r,
{
    r.start..r.end
}

impl Pattern {
    /// The parts of the pattern, each with a description, for a user to read: every filter,
    /// and with `all` also every constant and expression.
    pub fn explain(&self, all: bool) -> (r: Vec<Explanation>)
        requires
            self.wf(),
        ensures
            explanation_views(r@) == explained(self.items@, all),
    {
        let mut parts: Vec<Explanation> = Vec::new();
        let mut i: usize = 0;
        assert(explanation_views(parts@) =~= explained(self.items@.take(0), all));
        while i < self.items.len()
            invariant
                self.wf(),
                i <= self.items@.len(),
                explanation_views(parts@) == explained(self.items@.take(i as int), all),
            decreases self.items.len() - i,
        {
            let item = &self.items[i];
            assert(item_filters_wf(crate::parser::parsed_item_view(*item))) by {
                assert(crate::parser::items_view(self.items@)[i as int] == crate::parser::parsed_item_view(*item));
            }
            let ghost before = explanation_views(parts@);
            let color = match &item.value {
                Item::Constant(_) => ExplainColor::Green,
                Item::Expression(_) => ExplainColor::Yellow,
            };
            if all {
                parts.push(Explanation { range: copy_range(&item.range), color, text: item.value.to_display_string() });
            }
            let ghost head = explanation_views(parts@);
            assert(head =~= before + if all {
                seq![ExplanationView { start: item.range.start, end: item.range.end, color, text: item.value.display() }]
            } else {
                Seq::<ExplanationView>::empty()
            });
            match &item.value {
                Item::Constant(_) => {},
                Item::Expression(filters) => {
                    let mut j: usize = 0;
                    while j < filters.len()
                        invariant
                            j <= filters@.len(),
                            item_filters_wf(crate::parser::parsed_item_view(*item)),
                            item.value == Item::Expression(*filters),
                            explanation_views(parts@) == head + filter_parts(filters@.take(j as int)),
                        decreases filters.len() - j,
                    {
                        let f = &filters[j];
                        proof {
                            crate::parser::lemma_expression_filter_wf(*item, *filters, j as int);
                        }
                        let ghost prev = parts@;
                        let e = Explanation { range: copy_range(&f.range), color: ExplainColor::Blue, text: f.value.to_display_string() };
                        assert(e@ == filter_part(*f));
                        parts.push(e);
                        assert(explanation_views(parts@) =~= explanation_views(prev).push(filter_part(*f)));
                        assert(filter_parts(filters@.take(j + 1)) =~= filter_parts(filters@.take(j as int)).push(filter_part(*f)));
                        assert(explanation_views(parts@) =~= head + filter_parts(filters@.take(j + 1)));
                        j = j + 1;
                    }
                    assert(filters@.take(j as int) =~= filters@);
                },
            }
            proof {
                let taken = self.items@.take(i + 1);
                assert(taken.drop_last() =~= self.items@.take(i as int));
                assert(taken.last() == *item);
                assert(explanation_views(parts@) =~= before + item_parts(*item, all));
            }
            i = i + 1;
        }
        assert(self.items@.take(i as int) =~= self.items@);
        parts
    }
}

} // verus!
