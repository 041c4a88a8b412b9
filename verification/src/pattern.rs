use vstd::prelude::*;
use crate::chars::chars_width;
use crate::eval::{Context, Error as EvalError, ErrorKindView as EvalErrorView, Result as EvalResult};
use crate::filter::{Filter, FilterView, eval_allows};
use crate::parse::{Config, ConfigView, Result};
use crate::parser::{
    FilterAt, Item, ItemAt, ItemView, ParsedItem, Parser, filters_view, item_filters_wf, items_result,
    items_view, lemma_items_wf, parsed_filter_view, parsed_item_view,
};
use crate::reader::raw_chars;
use crate::text::{push_char, string_from_str};

verus! {

/// Why evaluation failed, by view: the error and the filter, with its byte range, that gave it.
pub type Failure = (EvalErrorView, FilterAt);

/// `values` is a trace of passing `input` through `filters` in order, with outcome `result`:
/// it starts with the input, each filter takes the value before it and gives the next one,
/// and the trace ends with the last filter (the outcome is its value) or with the first
/// filter that fails (the outcome is its failure).
pub open spec fn chain_trace(
    filters: Seq<FilterAt>,
    input: Seq<char>,
    context: &Context,
    values: Seq<Seq<char>>,
    result: std::result::Result<Seq<char>, Failure>,
) -> bool {
    &&& 1 <= values.len() <= filters.len() + 1
    &&& values[0] == input
    &&& forall|k: int|
        0 <= k < values.len() - 1 ==> eval_allows(
            #[trigger] filters[k].0,
            values[k],
            context,
            Ok(values[k + 1]),
        )
    &&& match result {
        Ok(v) => values.len() == filters.len() + 1 && v == values.last(),
        Err((kind, filter)) => values.len() <= filters.len() && filter == filters[values.len() - 1]
            && eval_allows(filter.0, values.last(), context, Err(kind)),
    }
}

/// Whether `result` is a possible outcome of passing `input` through `filters` in order.
pub open spec fn chain_allows(
    filters: Seq<FilterAt>,
    input: Seq<char>,
    context: &Context,
    result: std::result::Result<Seq<char>, Failure>,
) -> bool {
    exists|values: Seq<Seq<char>>| #[trigger] chain_trace(filters, input, context, values, result)
}

/// The value of an expression as it appears in the output: between the quotes, if any.
pub open spec fn quoted(value: Seq<char>, quotes: Option<char>) -> Seq<char> {
    match quotes {
        Some(q) => seq![q] + value + seq![q],
        None => value,
    }
}

/// What an item puts into the output: its text, or the value of the expression.
pub open spec fn piece(item: ItemAt, value: Seq<char>, quotes: Option<char>) -> Seq<char> {
    match item.0 {
        ItemView::Constant(text) => text,
        ItemView::Expression(_) => quoted(value, quotes),
    }
}

/// The output of the items, given the value of each expression.
pub open spec fn output_of(items: Seq<ItemAt>, values: Seq<Seq<char>>, quotes: Option<char>) -> Seq<char>
    decreases items.len(),
{
    if items.len() == 0 {
        Seq::empty()
    } else {
        output_of(items.drop_last(), values, quotes) + piece(items.last(), values[items.len() - 1], quotes)
    }
}

/// `value` is a possible value of the item (any for a constant).
pub open spec fn item_allows(item: ItemAt, input: Seq<char>, context: &Context, value: Seq<char>) -> bool {
    match item.0 {
        ItemView::Constant(_) => true,
        ItemView::Expression(filters) => chain_allows(filters, input, context, Ok(value)),
    }
}

/// `values` gives the value of each item evaluated for `input` up to the outcome `result`:
/// all of them and the output they make up, or those before the first expression that
/// fails, and its failure.
pub open spec fn items_trace(
    items: Seq<ItemAt>,
    input: Seq<char>,
    context: &Context,
    values: Seq<Seq<char>>,
    result: std::result::Result<Seq<char>, Failure>,
) -> bool {
    &&& values.len() <= items.len()
    &&& forall|k: int| 0 <= k < values.len() ==> item_allows(#[trigger] items[k], input, context, values[k])
    &&& match result {
        Ok(out) => values.len() == items.len() && out == output_of(items, values, context.expression_quotes),
        Err(failure) => values.len() < items.len() && (items[values.len() as int].0 matches ItemView::Expression(
            filters,
        ) && chain_allows(filters, input, context, Err(failure))),
    }
}

/// Whether `result` is a possible outcome of evaluating `items` for `input`: constants are
/// copied, each expression gives the value of its filters for the input, and the first
/// failure ends it.
pub open spec fn items_allow(
    items: Seq<ItemAt>,
    input: Seq<char>,
    context: &Context,
    result: std::result::Result<Seq<char>, Failure>,
) -> bool {
    exists|values: Seq<Seq<char>>| #[trigger] items_trace(items, input, context, values, result)
}

/// The item has some value for the input.
pub open spec fn item_has_value(item: ItemAt, input: Seq<char>, context: &Context) -> bool {
    exists|v: Seq<char>| item_allows(item, input, context, v)
}

/// Item `k` is an expression before which every item has a value for the input; `vs`
/// starts with the input, each of its filters before the last in `vs` took the value
/// before it and gave the next one, and the next filter is the one of `failure`, which
/// failed on the last value of `vs`.
pub open spec fn fails_first_at(
    items: Seq<ItemAt>,
    input: Seq<char>,
    context: &Context,
    failure: Failure,
    k: int,
    vs: Seq<Seq<char>>,
) -> bool {
    let filters = item_filters(items[k]);
    &&& 0 <= k < items.len()
    &&& items[k].0 is Expression
    &&& forall|j: int| 0 <= j < k ==> #[trigger] item_has_value(items[j], input, context)
    &&& 1 <= vs.len() <= filters.len()
    &&& vs[0] == input
    &&& forall|m: int| 0 <= m < vs.len() - 1 ==> eval_allows(#[trigger] filters[m].0, vs[m], context, Ok(vs[m + 1]))
    &&& failure.1 == filters[vs.len() - 1]
    &&& eval_allows(failure.1.0, vs.last(), context, Err(failure.0))
}

/// Evaluation that fails stops at the first failure: there is an expression item before
/// which every item has a value for the input, and in it a filter before which each filter
/// took the value before it (the input first) and gave the next one; that filter failed on
/// the value it was given, and it and its failure are what is reported. Nothing after it
/// takes part.
pub proof fn lemma_failure_is_first(
    items: Seq<ItemAt>,
    input: Seq<char>,
    context: &Context,
    failure: Failure,
)
    requires
        items_allow(items, input, context, Err(failure)),
    ensures
        exists|k: int, vs: Seq<Seq<char>>| #[trigger] fails_first_at(items, input, context, failure, k, vs),
{
    let values = choose|values: Seq<Seq<char>>| #[trigger] items_trace(items, input, context, values, Err(failure));
    let k = values.len() as int;
    assert forall|j: int| 0 <= j < k implies #[trigger] item_has_value(items[j], input, context) by {
        assert(item_allows(items[j], input, context, values[j]));
    }
    if let ItemView::Expression(filters) = items[k].0 {
        let vs = choose|vs: Seq<Seq<char>>| #[trigger] chain_trace(filters, input, context, vs, Err(failure));
        assert(item_filters(items[k]) == filters);
        assert forall|m: int| 0 <= m < vs.len() - 1 implies eval_allows(
            #[trigger] item_filters(items[k])[m].0,
            vs[m],
            context,
            Ok(vs[m + 1]),
        ) by {
            assert(eval_allows(filters[m].0, vs[m], context, Ok(vs[m + 1])));
        }
        assert(fails_first_at(items, input, context, failure, k, vs));
    }
}

/// The output of a prefix of the items grows by the piece of the next item.
pub proof fn lemma_output_of_step(items: Seq<ItemAt>, values: Seq<Seq<char>>, quotes: Option<char>, i: int)
    requires
        0 <= i < items.len(),
        i < values.len(),
    ensures
        output_of(items.take(i + 1), values, quotes) == output_of(items.take(i), values, quotes) + piece(
            items[i],
            values[i],
            quotes,
        ),
{
    assert(items.take(i + 1).drop_last() =~= items.take(i));
}

/// The output of items depends only on the values given to them.
pub proof fn lemma_output_of_prefix(items: Seq<ItemAt>, values: Seq<Seq<char>>, more: Seq<Seq<char>>, quotes: Option<char>)
    requires
        items.len() <= values.len() <= more.len(),
        values == more.take(values.len() as int),
    ensures
        output_of(items, values, quotes) == output_of(items, more, quotes),
    decreases items.len(),
{
    if items.len() > 0 {
        lemma_output_of_prefix(items.drop_last(), values, more, quotes);
        assert(values[items.len() - 1] == more[items.len() - 1]);
    }
}

/// The filter with index `j` of the expression with index `i` among `items`, if there is one.
pub open spec fn filter_in(items: Seq<ParsedItem>, i: int, j: int) -> Option<Filter> {
    if 0 <= i < items.len() {
        match items[i].value {
            Item::Expression(filters) => if 0 <= j < filters@.len() {
                Some(filters@[j].value)
            } else {
                None
            },
            Item::Constant(_) => None,
        }
    } else {
        None
    }
}

/// The outcome of evaluation, by view.
pub open spec fn eval_outcome(r: EvalResult<String>) -> std::result::Result<Seq<char>, Failure> {
    match r {
        Ok(s) => Ok(s@),
        Err(e) => Err((e.kind@, (e.cause@, e.range.start as nat, e.range.end as nat))),
    }
}

/// A parsed pattern: its source and its items.
#[derive(Debug, PartialEq)]
pub struct Pattern {
    pub source: String,
    pub items: Vec<ParsedItem>,
}

impl Pattern {
    /// Every filter of the pattern can be applied.
    pub open spec fn wf(&self) -> bool {
        forall|k: int| 0 <= k < self.items@.len() ==> item_filters_wf(#[trigger] items_view(self.items@)[k])
    }

    /// Parses a pattern.
    pub fn parse(source: &str, config: &Config) -> (r: Result<Pattern>)
        requires
            chars_width(raw_chars(source@)) <= usize::MAX,
        ensures
            match items_result(raw_chars(source@), config@) {
                Ok(items) => r matches Ok(p) && p.source@ == source@ && items_view(p.items@) == items && p.wf(),
                Err(e) => r matches Err(x) && x@ == e,
            },
            crate::parse::error_within(r, chars_width(raw_chars(source@))),
    {
        let mut parser = Parser::new(source, config);
        let items = match parser.parse_items() {
            Ok(items) => items,
            Err(e) => {
                return Err(e);
            },
        };
        proof {
            lemma_items_wf(raw_chars(source@), config@, 0, Seq::empty());
        }
        Ok(Pattern { source: string_from_str(source), items })
    }

    /// A pattern made of the given items, with no source text.
    pub fn from(items: Vec<ParsedItem>) -> (p: Pattern)
        ensures
            p.source@ == Seq::<char>::empty(),
            p.items@ == items@,
    {
        Pattern { source: String::new(), items }
    }
}

impl Pattern {
    /// Whether some filter of the pattern passes `test`.
    fn uses_filter<F: Fn(&Filter) -> bool>(&self, test: F) -> (r: bool)
        requires
            forall|f: &Filter| #[trigger] test.requires((f,)),
        ensures
            r ==> exists|i: int, j: int|
                #[trigger] filter_in(self.items@, i, j) matches Some(f) && test.ensures((&f,), true),
            !r ==> forall|i: int, j: int|
                #[trigger] filter_in(self.items@, i, j) matches Some(f) ==> test.ensures((&f,), false),
    {
        let mut i: usize = 0;
        while i < self.items.len()
            invariant
                i <= self.items@.len(),
                forall|f: &Filter| #[trigger] test.requires((f,)),
                forall|i2: int, j2: int|
                    0 <= i2 < i ==> (#[trigger] filter_in(self.items@, i2, j2) matches Some(f) ==> test.ensures(
                        (&f,),
                        false,
                    )),
            decreases self.items.len() - i,
        {
            match &self.items[i].value {
                Item::Expression(filters) => {
                    let mut j: usize = 0;
                    while j < filters.len()
                        invariant
                            i < self.items@.len(),
                            self.items@[i as int].value == Item::Expression(*filters),
                            j <= filters@.len(),
                            forall|f: &Filter| #[trigger] test.requires((f,)),
                            forall|i2: int, j2: int|
                                0 <= i2 < i ==> (#[trigger] filter_in(self.items@, i2, j2) matches Some(f)
                                    ==> test.ensures((&f,), false)),
                            forall|j2: int|
                                0 <= j2 < j ==> (#[trigger] filter_in(self.items@, i as int, j2) matches Some(f)
                                    ==> test.ensures((&f,), false)),
                        decreases filters.len() - j,
                    {
                        let found = test(&filters[j].value);
                        assert(filter_in(self.items@, i as int, j as int) == Some(filters@[j as int].value));
                        if found {
                            return true;
                        }
                        j = j + 1;
                    }
                    assert forall|i2: int, j2: int|
                        0 <= i2 < i + 1 implies (#[trigger] filter_in(self.items@, i2, j2) matches Some(f)
                        ==> test.ensures((&f,), false)) by {
                        if i2 == i && 0 <= j2 < j {
                        }
                    }
                },
                Item::Constant(_) => {
                    assert forall|i2: int, j2: int|
                        0 <= i2 < i + 1 implies (#[trigger] filter_in(self.items@, i2, j2) matches Some(f)
                        ==> test.ensures((&f,), false)) by {
                    }
                },
            }
            i = i + 1;
        }
        false
    }

    /// Whether the pattern uses the local counter.
    pub fn uses_local_counter(&self) -> (r: bool)
        ensures
            r == exists|i: int, j: int|
                #[trigger] filter_in(self.items@, i, j) matches Some(f) && f is LocalCounter,
    {
        self.uses_filter(is_local_counter)
    }

    /// Whether the pattern uses the global counter.
    pub fn uses_global_counter(&self) -> (r: bool)
        ensures
            r == exists|i: int, j: int|
                #[trigger] filter_in(self.items@, i, j) matches Some(f) && f is GlobalCounter,
    {
        self.uses_filter(is_global_counter)
    }

    /// Whether the pattern uses a capture group of the external regular expression.
    pub fn uses_regex_capture(&self) -> (r: bool)
        ensures
            r == exists|i: int, j: int|
                #[trigger] filter_in(self.items@, i, j) matches Some(f) && f is RegexCapture,
    {
        self.uses_filter(is_regex_capture)
    }
}

/// Whether the filter is the local counter.
fn is_local_counter(filter: &Filter) -> (b: bool)
    ensures
        b == (*filter is LocalCounter),
{
    matches!(filter, Filter::LocalCounter)
}

/// Whether the filter is the global counter.
fn is_global_counter(filter: &Filter) -> (b: bool)
    ensures
        b == (*filter is GlobalCounter),
{
    matches!(filter, Filter::GlobalCounter)
}

/// Whether the filter is a capture group of the external regular expression.
fn is_regex_capture(filter: &Filter) -> (b: bool)
    ensures
        b == (*filter is RegexCapture),
{
    matches!(filter, Filter::RegexCapture(_))
}

impl Pattern {
    /// Evaluates the pattern for an input value. Where it fails, the failure is that of the
    /// first filter that fails: every item before its expression has a value, and each
    /// filter before it in that expression gave the value it was handed on.
    #[verifier::rlimit(60)]
    #[verifier::spinoff_prover]
    pub fn eval<'a>(&'a self, input: &str, context: &Context) -> (r: EvalResult<'a, String>)
        requires
            self.wf(),
        ensures
            items_allow(items_view(self.items@), input@, context, eval_outcome(r)),
            r matches Err(e) ==> e.value@ == input@,
            eval_outcome(r) matches Err(failure) ==> exists|k: int, vs: Seq<Seq<char>>|
                #[trigger] fails_first_at(items_view(self.items@), input@, context, failure, k, vs),
    {
        let ghost all = items_view(self.items@);
        let ghost quotes = context.expression_quotes;
        let ghost mut values: Seq<Seq<char>> = Seq::empty();
        let mut output = String::new();
        let mut i: usize = 0;
        assert(output@ =~= output_of(all.take(0), values, quotes));
        while i < self.items.len()
            invariant
                self.wf(),
                all == items_view(self.items@),
                quotes == context.expression_quotes,
                i <= self.items@.len(),
                values.len() == i,
                forall|k: int| 0 <= k < i ==> item_allows(#[trigger] all[k], input@, context, values[k]),
                output@ == output_of(all.take(i as int), values, quotes),
            decreases self.items.len() - i,
        {
            let ghost prev = output@;
            let ghost old_values = values;
            assert(all[i as int] == parsed_item_view(self.items@[i as int]));
            match &self.items[i].value {
                Item::Constant(value) => {
                    output.append(value.as_str());
                    proof {
                        values = values.push(value@);
                    }
                },
                Item::Expression(filters) => {
                    let ghost fs = filters_view(filters@);
                    assert(item_filters_wf(all[i as int]));
                    assert(all[i as int].0 == ItemView::Expression(fs));
                    assert forall|k: int| 0 <= k < fs.len() implies (#[trigger] fs[k]).0.wf() by {
                        let item = all[i as int];
                        assert(item_filters_wf(item));
                        if let ItemView::Expression(listed) = item.0 {
                            assert(listed == fs);
                            assert(listed[k].0.wf());
                        }
                    }
                    let mut value = string_from_str(input);
                    let ghost mut trace: Seq<Seq<char>> = seq![input@];
                    let mut j: usize = 0;
                    while j < filters.len()
                        invariant
                            j <= filters@.len(),
                            fs == filters_view(filters@),
                            forall|k: int| 0 <= k < fs.len() ==> (#[trigger] fs[k]).0.wf(),
                            all == items_view(self.items@),
                            i < all.len(),
                            all[i as int].0 == ItemView::Expression(fs),
                            values.len() == i,
                            forall|k: int| 0 <= k < i ==> item_allows(#[trigger] all[k], input@, context, values[k]),
                            trace.len() == j + 1,
                            trace[0] == input@,
                            trace.last() == value@,
                            forall|k: int|
                                0 <= k < j ==> eval_allows(
                                    #[trigger] fs[k].0,
                                    trace[k],
                                    context,
                                    Ok(trace[k + 1]),
                                ),
                        decreases filters.len() - j,
                    {
                        assert(fs[j as int] == parsed_filter_view(filters@[j as int]));
                        assert(fs[j as int].0.wf());
                        let ghost before = value@;
                        let filter = &filters[j];
                        match filter.value.eval(value, context) {
                            Ok(result) => {
                                value = result;
                                proof {
                                    trace = trace.push(value@);
                                }
                            },
                            Err(kind) => {
                                let e = EvalError {
                                    kind,
                                    value: string_from_str(input),
                                    cause: &filter.value,
                                    range: &filter.range,
                                };
                                proof {
                                    let failure = (e.kind@, fs[j as int]);
                                    assert(chain_trace(fs, input@, context, trace, Err(failure)));
                                    assert(items_trace(all, input@, context, values, Err(failure)));
                                    lemma_failure_is_first(all, input@, context, failure);
                                }
                                return Err(e);
                            },
                        }
                        j = j + 1;
                    }
                    proof {
                        assert(chain_trace(fs, input@, context, trace, Ok(value@)));
                    }
                    match context.expression_quotes {
                        Some(quotes) => {
                            push_char(&mut output, quotes);
                            output.append(value.as_str());
                            push_char(&mut output, quotes);
                        },
                        None => {
                            output.append(value.as_str());
                        },
                    }
                    proof {
                        values = values.push(value@);
                    }
                },
            }
            proof {
                assert(values.take(i as int) =~= old_values);
                lemma_output_of_step(all, values, quotes, i as int);
                lemma_output_of_prefix(all.take(i as int), old_values, values, quotes);
                assert(output@ =~= output_of(all.take(i + 1), values, quotes));
            }
            i = i + 1;
        }
        proof {
            assert(all.take(i as int) =~= all);
            assert(items_trace(all, input@, context, values, Ok(output@)));
        }
        Ok(output)
    }
}

/// The filter gives one value for each value and context: it depends neither on the file
/// system nor on chance.
pub open spec fn is_deterministic(f: FilterView) -> bool {
    !(f is CanonicalPath || f is RandomNumber || f is RandomUuid)
}

/// The filters of an item: those of an expression, none for a constant.
pub open spec fn item_filters(item: ItemAt) -> Seq<FilterAt> {
    match item.0 {
        ItemView::Expression(filters) => filters,
        ItemView::Constant(_) => Seq::empty(),
    }
}

/// Every filter of every expression among `items` is deterministic.
pub open spec fn deterministic_items(items: Seq<ItemAt>) -> bool {
    forall|k: int, j: int|
        0 <= k < items.len() && 0 <= j < item_filters(items[k]).len() ==> is_deterministic(
            #[trigger] item_filters(items[k])[j].0,
        )
}

/// Two traces through deterministic filters agree up to index `k`.
proof fn lemma_traces_agree(
    filters: Seq<FilterAt>,
    input: Seq<char>,
    context: &Context,
    v1: Seq<Seq<char>>,
    r1: std::result::Result<Seq<char>, Failure>,
    v2: Seq<Seq<char>>,
    r2: std::result::Result<Seq<char>, Failure>,
    k: int,
)
    requires
        forall|j: int| 0 <= j < filters.len() ==> is_deterministic(#[trigger] filters[j].0),
        chain_trace(filters, input, context, v1, r1),
        chain_trace(filters, input, context, v2, r2),
        0 <= k < v1.len(),
        k < v2.len(),
    ensures
        v1[k] == v2[k],
    decreases k,
{
    if k > 0 {
        lemma_traces_agree(filters, input, context, v1, r1, v2, r2, k - 1);
        let f = filters[k - 1].0;
        assert(is_deterministic(f));
        assert(eval_allows(f, v1[k - 1], context, Ok(v1[k])));
        assert(eval_allows(f, v2[k - 1], context, Ok(v2[k])));
    }
}

/// A trace through deterministic filters never fails and runs through all of them.
proof fn lemma_trace_complete(
    filters: Seq<FilterAt>,
    input: Seq<char>,
    context: &Context,
    values: Seq<Seq<char>>,
    result: std::result::Result<Seq<char>, Failure>,
)
    requires
        forall|j: int| 0 <= j < filters.len() ==> is_deterministic(#[trigger] filters[j].0),
        chain_trace(filters, input, context, values, result),
    ensures
        result is Ok,
        values.len() == filters.len() + 1,
{
    if let Err((kind, filter)) = result {
        assert(is_deterministic(filters[values.len() - 1].0));
        assert(eval_allows(filter.0, values.last(), context, Err(kind)));
    }
}

/// Deterministic filters give one outcome for an input.
pub proof fn lemma_chain_deterministic(
    filters: Seq<FilterAt>,
    input: Seq<char>,
    context: &Context,
    r1: std::result::Result<Seq<char>, Failure>,
    r2: std::result::Result<Seq<char>, Failure>,
)
    requires
        forall|j: int| 0 <= j < filters.len() ==> is_deterministic(#[trigger] filters[j].0),
        chain_allows(filters, input, context, r1),
        chain_allows(filters, input, context, r2),
    ensures
        r1 == r2,
{
    let v1 = choose|v: Seq<Seq<char>>| chain_trace(filters, input, context, v, r1);
    let v2 = choose|v: Seq<Seq<char>>| chain_trace(filters, input, context, v, r2);
    lemma_trace_complete(filters, input, context, v1, r1);
    lemma_trace_complete(filters, input, context, v2, r2);
    lemma_traces_agree(filters, input, context, v1, r1, v2, r2, filters.len() as int);
}

/// The output depends only on the values given to the expressions.
proof fn lemma_output_of_expressions(
    items: Seq<ItemAt>,
    v1: Seq<Seq<char>>,
    v2: Seq<Seq<char>>,
    quotes: Option<char>,
)
    requires
        items.len() <= v1.len(),
        items.len() <= v2.len(),
        forall|k: int| 0 <= k < items.len() && (#[trigger] items[k]).0 is Expression ==> v1[k] == v2[k],
    ensures
        output_of(items, v1, quotes) == output_of(items, v2, quotes),
    decreases items.len(),
{
    if items.len() > 0 {
        let n = items.len() - 1;
        assert forall|k: int| 0 <= k < n && (#[trigger] items.drop_last()[k]).0 is Expression implies v1[k] == v2[k] by {
            assert(items.drop_last()[k] == items[k]);
        }
        lemma_output_of_expressions(items.drop_last(), v1, v2, quotes);
        assert(items[n].0 is Expression ==> v1[n] == v2[n]);
    }
}

/// A pattern whose filters depend neither on the file system nor on chance has exactly
/// one outcome for each input and context.
pub proof fn lemma_eval_deterministic(
    items: Seq<ItemAt>,
    input: Seq<char>,
    context: &Context,
    r1: std::result::Result<Seq<char>, Failure>,
    r2: std::result::Result<Seq<char>, Failure>,
)
    requires
        deterministic_items(items),
        items_allow(items, input, context, r1),
        items_allow(items, input, context, r2),
    ensures
        r1 == r2,
{
    let v1 = choose|v: Seq<Seq<char>>| items_trace(items, input, context, v, r1);
    let v2 = choose|v: Seq<Seq<char>>| items_trace(items, input, context, v, r2);
    assert forall|k: int| 0 <= k < items.len() && k < v1.len() && k < v2.len() && (#[trigger] items[k]).0 is Expression
        implies v1[k] == v2[k] by {
        if let ItemView::Expression(filters) = items[k].0 {
            assert forall|j: int| 0 <= j < filters.len() implies is_deterministic(#[trigger] filters[j].0) by {
                assert(item_filters(items[k]) == filters);
                assert(is_deterministic(item_filters(items[k])[j].0));
            }
            assert(item_allows(items[k], input, context, v1[k]));
            assert(item_allows(items[k], input, context, v2[k]));
            lemma_chain_deterministic(filters, input, context, Ok(v1[k]), Ok(v2[k]));
        }
    }
    lemma_items_complete(items, input, context, v1, r1);
    lemma_items_complete(items, input, context, v2, r2);
    lemma_output_of_expressions(items, v1, v2, context.expression_quotes);
}

/// Deterministic expressions never fail, so a trace of their values covers all items.
proof fn lemma_items_complete(
    items: Seq<ItemAt>,
    input: Seq<char>,
    context: &Context,
    values: Seq<Seq<char>>,
    result: std::result::Result<Seq<char>, Failure>,
)
    requires
        deterministic_items(items),
        items_trace(items, input, context, values, result),
    ensures
        result is Ok,
        values.len() == items.len(),
{
    if let Err(failure) = result {
        let k = values.len() as int;
        if let ItemView::Expression(filters) = items[k].0 {
            assert forall|j: int| 0 <= j < filters.len() implies is_deterministic(#[trigger] filters[j].0) by {
                assert(item_filters(items[k]) == filters);
                assert(is_deterministic(item_filters(items[k])[j].0));
            }
            let v = choose|v: Seq<Seq<char>>| chain_trace(filters, input, context, v, Err(failure));
            lemma_trace_complete(filters, input, context, v, Err(failure));
        }
    }
}

/// Evaluating a pattern whose source is plain text gives that text, whatever the input:
/// constants are copied to the output.
pub proof fn lemma_plain_pattern_gives_text(
    text: Seq<char>,
    cfg: ConfigView,
    input: Seq<char>,
    context: &Context,
    result: std::result::Result<Seq<char>, Failure>,
)
    requires
        crate::parser::is_plain(text, cfg.escape),
        items_result(raw_chars(text), cfg) matches Ok(items) && items_allow(items, input, context, result),
    ensures
        result == Ok::<Seq<char>, Failure>(text),
{
    crate::parser::lemma_plain_text_is_constant(text, cfg);
    let items = items_result(raw_chars(text), cfg)->Ok_0;
    let values = choose|values: Seq<Seq<char>>| #[trigger] items_trace(items, input, context, values, result);
    assert(items_trace(items, input, context, values, result));
    let quotes = context.expression_quotes;
    if text.len() > 0 {
        assert(items.len() == 1 && items[0].0 == ItemView::Constant(text));
        assert(items.drop_last() =~= Seq::<ItemAt>::empty());
        assert(output_of(items, values, quotes) == output_of(items.drop_last(), values, quotes) + piece(
            items.last(),
            values[0],
            quotes,
        ));
        assert(output_of(items.drop_last(), values, quotes) == Seq::<char>::empty());
        assert(Seq::<char>::empty() + text =~= text);
    } else {
        assert(items.len() == 0);
        assert(output_of(items, values, quotes) =~= text);
    }
}

} // verus!
