//! A causal tree of errors and its rendering into snapshots: each cause is rendered, those
//! that show nothing are counted, and the others are kept, the simplest first.

use vstd::prelude::*;

use crate::formatting::{trim, trimmed};
use crate::colorization::Colorization;
use crate::range_styling::{self, Span, restyled};
use crate::simple_error_detail::SimpleErrorDetail;
use crate::simple_error_display_info::{
    DisplayModel, SimpleErrorDisplayInfo, complexity_of, display_string, empty_model, explained,
    opt_text, total_complexity,
};
use crate::simple_error_explanation::SimpleErrorExplanation;

verus! {

/// An error: where it happened, its explanation, its start and end positions, and the errors
/// that caused it.
#[derive(Debug)]
pub struct SimpleError {
    pub where_: Option<String>,
    pub error_detail: Option<SimpleErrorExplanation>,
    pub start_point_of_error: Option<(usize, usize)>,
    pub end_point_of_error: Option<(usize, usize)>,
    pub causes: Vec<SimpleError>,
}

/// Number of errors in the tree rooted at `e`.
pub open spec fn error_count(e: SimpleError) -> nat
    decreases e,
{
    1 + causes_count(e.causes@)
}

/// Number of errors in the trees rooted at `causes`.
pub open spec fn causes_count(causes: Seq<SimpleError>) -> nat
    decreases causes,
{
    if causes.len() == 0 {
        0
    } else {
        causes_count(causes.drop_last()) + error_count(causes.last())
    }
}

/// The location shown for `e`: its text trimmed, when there is a text and it is not blank.
pub open spec fn shown_location(e: SimpleError) -> Option<Seq<char>> {
    match e.where_ {
        Some(w) => if trimmed(w@).len() > 0 {
            Some(trimmed(w@))
        } else {
            None
        },
        None => None,
    }
}

/// Whether `styled` is the location of `e` restyled by the markers of its explanation.
pub open spec fn restyled_location(e: SimpleError, styled: Seq<char>) -> bool {
    match e.where_ {
        Some(w) => match e.error_detail {
            Some(d) => restyled(w@, d.whole_marker, d.colorization_markers@, styled),
            None => restyled(w@, None, Seq::empty(), styled),
        },
        None => false,
    }
}

/// The reason given by the explanation of `e`.
pub open spec fn reason_of(e: SimpleError) -> Option<Seq<char>> {
    match e.error_detail {
        Some(d) => opt_text(d.explanation),
        None => None,
    }
}

/// The solution given by the explanation of `e`.
pub open spec fn solution_of(e: SimpleError) -> Option<Seq<char>> {
    match e.error_detail {
        Some(d) => opt_text(d.solution),
        None => None,
    }
}

/// The models of `s` that show something, in order.
pub open spec fn explained_only(s: Seq<DisplayModel>) -> Seq<DisplayModel>
    decreases s.len(),
{
    if s.len() == 0 {
        seq![]
    } else if explained(s.last()) {
        explained_only(s.drop_last()).push(s.last())
    } else {
        explained_only(s.drop_last())
    }
}

/// Number of models of `s` that show nothing.
pub open spec fn unexplained_count(s: Seq<DisplayModel>) -> nat
    decreases s.len(),
{
    if s.len() == 0 {
        0
    } else if explained(s.last()) {
        unexplained_count(s.drop_last())
    } else {
        unexplained_count(s.drop_last()) + 1
    }
}

/// `m` put into `sorted` after every model of no greater complexity.
pub open spec fn insert_by_complexity(sorted: Seq<DisplayModel>, m: DisplayModel) -> Seq<
    DisplayModel,
>
    decreases sorted.len(),
{
    if sorted.len() == 0 {
        seq![m]
    } else if complexity_of(sorted.last()) <= complexity_of(m) {
        sorted.push(m)
    } else {
        insert_by_complexity(sorted.drop_last(), m).push(sorted.last())
    }
}

/// `s` sorted by ascending complexity; models of equal complexity keep their order.
pub open spec fn sort_by_complexity(s: Seq<DisplayModel>) -> Seq<DisplayModel>
    decreases s.len(),
{
    if s.len() == 0 {
        seq![]
    } else {
        insert_by_complexity(sort_by_complexity(s.drop_last()), s.last())
    }
}

/// The models of the causes of `e`, in order.
pub open spec fn cause_models(e: SimpleError) -> Seq<DisplayModel>
    decreases e, 0nat,
{
    Seq::new(
        e.causes@.len(),
        |i: int|
            if 0 <= i < e.causes@.len() {
                error_model(e.causes@[i])
            } else {
                empty_model()
            },
    )
}

/// What is shown of `e` without colors: its location trimmed, the reason and solution of its
/// explanation, its positions, how many causes show nothing, and the causes that show
/// something, by ascending complexity.
pub open spec fn error_model(e: SimpleError) -> DisplayModel
    decreases e, 1nat,
{
    let children = cause_models(e);
    DisplayModel {
        at: shown_location(e),
        reason: reason_of(e),
        solution: solution_of(e),
        on_line_and_column: e.start_point_of_error,
        up_to_line_an_column: e.end_point_of_error,
        unexplained_causes: unexplained_count(children),
        explained_causes: sort_by_complexity(explained_only(children)),
    }
}

/// `m` with the text of each location emptied, keeping only whether there is one.
pub open spec fn strip_at(m: DisplayModel) -> DisplayModel
    decreases m,
{
    DisplayModel {
        at: match m.at {
            Some(_) => Some(Seq::empty()),
            None => None,
        },
        explained_causes: Seq::new(
            m.explained_causes.len(),
            |i: int|
                if 0 <= i < m.explained_causes.len() {
                    strip_at(m.explained_causes[i])
                } else {
                    empty_model()
                },
        ),
        ..m
    }
}

/// The models of the snapshots of `v`.
pub open spec fn models(v: Seq<SimpleErrorDisplayInfo>) -> Seq<DisplayModel> {
    v.map_values(|i: SimpleErrorDisplayInfo| i@)
}

/// Each model of `s` with its locations emptied.
pub open spec fn strips(s: Seq<DisplayModel>) -> Seq<DisplayModel> {
    s.map_values(|m: DisplayModel| strip_at(m))
}


proof fn lemma_total_insert(sorted: Seq<DisplayModel>, m: DisplayModel)
    ensures
        total_complexity(insert_by_complexity(sorted, m)) == total_complexity(sorted)
            + complexity_of(m),
    decreases sorted.len(),
{
    if sorted.len() == 0 {
        assert(seq![m].drop_last() =~= Seq::<DisplayModel>::empty());
        assert(total_complexity(seq![m]) == total_complexity(Seq::<DisplayModel>::empty())
            + complexity_of(m));
    } else if complexity_of(sorted.last()) <= complexity_of(m) {
        assert(sorted.push(m).drop_last() =~= sorted);
        assert(total_complexity(sorted.push(m)) == total_complexity(sorted) + complexity_of(m));
    } else {
        lemma_total_insert(sorted.drop_last(), m);
        let ins = insert_by_complexity(sorted.drop_last(), m);
        assert(ins.push(sorted.last()).drop_last() =~= ins);
        assert(total_complexity(ins.push(sorted.last())) == total_complexity(ins) + complexity_of(
            sorted.last(),
        ));
        assert(total_complexity(sorted) == total_complexity(sorted.drop_last()) + complexity_of(
            sorted.last(),
        ));
    }
}

proof fn lemma_total_sort(s: Seq<DisplayModel>)
    ensures
        total_complexity(sort_by_complexity(s)) == total_complexity(s),
    decreases s.len(),
{
    if s.len() > 0 {
        lemma_total_sort(s.drop_last());
        lemma_total_insert(sort_by_complexity(s.drop_last()), s.last());
    }
}

proof fn lemma_total_explained_only(s: Seq<DisplayModel>)
    ensures
        total_complexity(explained_only(s)) <= total_complexity(s),
    decreases s.len(),
{
    if s.len() > 0 {
        lemma_total_explained_only(s.drop_last());
        let e = explained_only(s.drop_last());
        assert(e.push(s.last()).drop_last() =~= e);
    }
}

proof fn lemma_model_complexity(e: SimpleError)
    ensures
        complexity_of(error_model(e)) <= error_count(e),
    decreases e,
{
    lemma_causes_complexity(e.causes@);
    let children = cause_models(e);
    assert(children =~= causes_models(e.causes@));
    lemma_total_explained_only(children);
    lemma_total_sort(explained_only(children));
}

/// The models of `causes`, in order.
pub open spec fn causes_models(causes: Seq<SimpleError>) -> Seq<DisplayModel> {
    causes.map_values(|c: SimpleError| error_model(c))
}

proof fn lemma_causes_complexity(causes: Seq<SimpleError>)
    ensures
        total_complexity(causes_models(causes)) <= causes_count(causes),
    decreases causes,
{
    if causes.len() > 0 {
        lemma_causes_complexity(causes.drop_last());
        lemma_model_complexity(causes.last());
        assert(causes_models(causes).drop_last() =~= causes_models(causes.drop_last()));
    }
}

proof fn lemma_cause_count(causes: Seq<SimpleError>, j: int)
    requires
        0 <= j < causes.len(),
    ensures
        error_count(causes[j]) <= causes_count(causes),
    decreases causes.len(),
{
    if j < causes.len() - 1 {
        lemma_cause_count(causes.drop_last(), j);
    }
}

proof fn lemma_strip_complexity(m: DisplayModel)
    ensures
        complexity_of(strip_at(m)) == complexity_of(m),
        explained(strip_at(m)) == explained(m),
    decreases m,
{
    lemma_total_strips(m.explained_causes);
    assert(strip_at(m).explained_causes =~= strips(m.explained_causes));
}

proof fn lemma_total_strips(s: Seq<DisplayModel>)
    ensures
        total_complexity(strips(s)) == total_complexity(s),
    decreases s,
{
    if s.len() > 0 {
        lemma_total_strips(s.drop_last());
        lemma_strip_complexity(s.last());
        assert(strips(s).drop_last() =~= strips(s.drop_last()));
    }
}

proof fn lemma_strips_insert(
    sorted1: Seq<DisplayModel>,
    sorted2: Seq<DisplayModel>,
    m1: DisplayModel,
    m2: DisplayModel,
)
    requires
        strips(sorted1) == strips(sorted2),
        strip_at(m1) == strip_at(m2),
    ensures
        strips(insert_by_complexity(sorted1, m1)) == strips(insert_by_complexity(sorted2, m2)),
    decreases sorted1.len(),
{
    assert(sorted1.len() == strips(sorted1).len());
    assert(sorted2.len() == strips(sorted2).len());
    lemma_strip_complexity(m1);
    lemma_strip_complexity(m2);
    if sorted1.len() == 0 {
        assert(strips(seq![m1]) =~= strips(seq![m2]));
    } else {
        let l1 = sorted1.last();
        let l2 = sorted2.last();
        let n = sorted1.len() - 1;
        assert(strips(sorted1)[n] == strips(sorted2)[n]);
        assert(strips(sorted1)[n] == strip_at(sorted1[n]));
        assert(strips(sorted2)[n] == strip_at(sorted2[n]));
        assert(strip_at(l1) == strip_at(l2));
        lemma_strip_complexity(l1);
        lemma_strip_complexity(l2);
        assert(strips(sorted1.drop_last()) =~= strips(sorted1).drop_last());
        assert(strips(sorted2.drop_last()) =~= strips(sorted2).drop_last());
        if complexity_of(l1) <= complexity_of(m1) {
            assert(strips(sorted1.push(m1)) =~= strips(sorted1).push(strip_at(m1)));
            assert(strips(sorted2.push(m2)) =~= strips(sorted2).push(strip_at(m2)));
        } else {
            lemma_strips_insert(sorted1.drop_last(), sorted2.drop_last(), m1, m2);
            let i1 = insert_by_complexity(sorted1.drop_last(), m1);
            let i2 = insert_by_complexity(sorted2.drop_last(), m2);
            assert(strips(i1.push(l1)) =~= strips(i1).push(strip_at(l1)));
            assert(strips(i2.push(l2)) =~= strips(i2).push(strip_at(l2)));
        }
    }
}

proof fn lemma_strips_sort(s1: Seq<DisplayModel>, s2: Seq<DisplayModel>)
    requires
        strips(s1) == strips(s2),
    ensures
        strips(sort_by_complexity(s1)) == strips(sort_by_complexity(s2)),
    decreases s1.len(),
{
    assert(s1.len() == strips(s1).len());
    assert(s2.len() == strips(s2).len());
    if s1.len() > 0 {
        assert(strips(s1.drop_last()) =~= strips(s1).drop_last());
        assert(strips(s2.drop_last()) =~= strips(s2).drop_last());
        let n = s1.len() - 1;
        assert(strips(s1)[n] == strips(s2)[n]);
        assert(strips(s1)[n] == strip_at(s1[n]));
        assert(strips(s2)[n] == strip_at(s2[n]));
        lemma_strips_sort(s1.drop_last(), s2.drop_last());
        lemma_strips_insert(
            sort_by_complexity(s1.drop_last()),
            sort_by_complexity(s2.drop_last()),
            s1.last(),
            s2.last(),
        );
    }
}

fn clone_text(s: &Option<String>) -> (r: Option<String>)
    ensures
        opt_text(r) == opt_text(*s),
{
    match s {
        Some(t) => Some(t.clone()),
        None => None,
    }
}

fn insert_info(sorted: Vec<SimpleErrorDisplayInfo>, info: SimpleErrorDisplayInfo) -> (r: Vec<
    SimpleErrorDisplayInfo,
>)
    requires
        forall|q: int| 0 <= q < sorted@.len() ==> complexity_of(#[trigger] sorted@[q]@) <= usize::MAX,
        complexity_of(info@) <= usize::MAX,
    ensures
        models(r@) == insert_by_complexity(models(sorted@), info@),
        forall|q: int| 0 <= q < r@.len() ==> complexity_of(#[trigger] r@[q]@) <= usize::MAX,
    decreases sorted@.len(),
{
    let mut sorted = sorted;
    let ghost before = sorted@;
    if sorted.len() == 0 {
        let mut r = Vec::new();
        r.push(info);
        assert(models(r@) =~= seq![info@]);
        return r;
    }
    let n = sorted.len();
    if sorted[n - 1].complexity() <= info.complexity() {
        sorted.push(info);
        assert(models(sorted@) =~= models(before).push(info@));
        sorted
    } else {
        let last = match sorted.pop() {
            Some(l) => l,
            None => {
                return sorted;
            },
        };
        assert(models(sorted@) =~= models(before).drop_last());
        let mut r = insert_info(sorted, info);
        let ghost inserted = r@;
        r.push(last);
        assert(models(r@) =~= models(inserted).push(last@));
        r
    }
}

fn sort_infos(v: Vec<SimpleErrorDisplayInfo>) -> (r: Vec<SimpleErrorDisplayInfo>)
    requires
        forall|q: int| 0 <= q < v@.len() ==> complexity_of(#[trigger] v@[q]@) <= usize::MAX,
    ensures
        models(r@) == sort_by_complexity(models(v@)),
        forall|q: int| 0 <= q < r@.len() ==> complexity_of(#[trigger] r@[q]@) <= usize::MAX,
    decreases v@.len(),
{
    let mut v = v;
    let ghost before = v@;
    match v.pop() {
        None => {
            assert(models(v@) =~= Seq::<DisplayModel>::empty());
            v
        },
        Some(last) => {
            assert(models(v@) =~= models(before).drop_last());
            assert(models(before).last() == last@);
            let sorted = sort_infos(v);
            insert_info(sorted, last)
        },
    }
}

/// Whether `s` lists models by ascending complexity.
pub open spec fn by_ascending_complexity(s: Seq<DisplayModel>) -> bool {
    forall|i: int, j: int|
        0 <= i < j < s.len() ==> complexity_of(#[trigger] s[i]) <= complexity_of(#[trigger] s[j])
}

proof fn lemma_insert_sorted(sorted: Seq<DisplayModel>, m: DisplayModel)
    requires
        by_ascending_complexity(sorted),
    ensures
        by_ascending_complexity(insert_by_complexity(sorted, m)),
        insert_by_complexity(sorted, m).len() == sorted.len() + 1,
        forall|i: int|
            0 <= i < insert_by_complexity(sorted, m).len() ==> complexity_of(
                #[trigger] insert_by_complexity(sorted, m)[i],
            ) == complexity_of(m) || exists|j: int|
                0 <= j < sorted.len() && complexity_of(sorted[j]) == complexity_of(
                    insert_by_complexity(sorted, m)[i],
                ),
    decreases sorted.len(),
{
    if sorted.len() > 0 && complexity_of(sorted.last()) > complexity_of(m) {
        let rest = sorted.drop_last();
        lemma_insert_sorted(rest, m);
        let ins = insert_by_complexity(rest, m);
        let r = ins.push(sorted.last());
        assert forall|i: int| 0 <= i < r.len() implies complexity_of(#[trigger] r[i])
            == complexity_of(m) || exists|j: int|
            0 <= j < sorted.len() && complexity_of(sorted[j]) == complexity_of(r[i]) by {
            if i < ins.len() {
                if complexity_of(ins[i]) != complexity_of(m) {
                    let j = choose|j: int|
                        0 <= j < rest.len() && complexity_of(rest[j]) == complexity_of(ins[i]);
                    assert(sorted[j] == rest[j]);
                }
            } else {
                assert(r[i] == sorted[sorted.len() - 1]);
            }
        }
        assert forall|i: int, j: int| 0 <= i < j < r.len() implies complexity_of(#[trigger] r[i])
            <= complexity_of(#[trigger] r[j]) by {
            if j == r.len() - 1 && i < ins.len() {
                if complexity_of(ins[i]) != complexity_of(m) {
                    let k = choose|k: int|
                        0 <= k < rest.len() && complexity_of(rest[k]) == complexity_of(ins[i]);
                    assert(complexity_of(sorted[k]) <= complexity_of(sorted[sorted.len() - 1]));
                }
            }
        }
    } else if sorted.len() > 0 {
        let r = sorted.push(m);
        assert forall|i: int| 0 <= i < r.len() implies complexity_of(#[trigger] r[i])
            == complexity_of(m) || exists|j: int|
            0 <= j < sorted.len() && complexity_of(sorted[j]) == complexity_of(r[i]) by {
            if i < sorted.len() {
                assert(r[i] == sorted[i]);
            }
        }
        assert forall|i: int, j: int| 0 <= i < j < r.len() implies complexity_of(#[trigger] r[i])
            <= complexity_of(#[trigger] r[j]) by {
            if j == r.len() - 1 && i < sorted.len() - 1 {
                assert(complexity_of(sorted[i]) <= complexity_of(sorted[sorted.len() - 1]));
            }
        }
    }
}

proof fn lemma_sort_sorted(s: Seq<DisplayModel>)
    ensures
        by_ascending_complexity(sort_by_complexity(s)),
    decreases s.len(),
{
    if s.len() > 0 {
        lemma_sort_sorted(s.drop_last());
        lemma_insert_sorted(sort_by_complexity(s.drop_last()), s.last());
    }
}

/// The explained causes of a rendered error come by ascending complexity: a cause with a
/// larger tree of explained causes never comes before a smaller one.
pub proof fn lemma_causes_by_complexity(e: SimpleError)
    ensures
        by_ascending_complexity(error_model(e).explained_causes),
{
    lemma_sort_sorted(explained_only(cause_models(e)));
}

/// What is shown of an error without location, positions or causes.
pub(crate) proof fn lemma_lone_error_model(e: SimpleError)
    requires
        e.where_ is None,
        e.start_point_of_error is None,
        e.end_point_of_error is None,
        e.causes@.len() == 0,
    ensures
        error_model(e).at is None,
        error_model(e).unexplained_causes == 0,
        error_model(e).explained_causes.len() == 0,
        error_count(e) == 1,
{
    assert(cause_models(e) =~= Seq::<DisplayModel>::empty());
}

/// Rendering without colors depends on the error alone: two snapshots rendered without colors
/// from one error, as `SimpleError::as_display_struct` renders them, have one model and so one
/// text.
pub proof fn lemma_unstyled_rendering_repeats(
    e: SimpleError,
    first: SimpleErrorDisplayInfo,
    second: SimpleErrorDisplayInfo,
)
    requires
        first@ == error_model(e),
        second@ == error_model(e),
    ensures
        first@ == second@,
        display_string(first@) == display_string(second@),
{
}

/// The errors without causes in the tree rooted at `e`, from left to right.
pub open spec fn leaves(e: SimpleError) -> Seq<SimpleError>
    decreases e, 1nat,
{
    if e.causes@.len() == 0 {
        seq![e]
    } else {
        causes_leaves(e.causes@)
    }
}

/// The errors without causes in the trees rooted at `causes`, from left to right.
pub open spec fn causes_leaves(causes: Seq<SimpleError>) -> Seq<SimpleError>
    decreases causes,
{
    if causes.len() == 0 {
        seq![]
    } else {
        causes_leaves(causes.drop_last()) + leaves(causes.last())
    }
}

/// The errors that `refs` refer to.
pub open spec fn referred(refs: Seq<&SimpleError>) -> Seq<SimpleError> {
    refs.map_values(|r: &SimpleError| *r)
}

/// The paths of the tree rooted at `e`, each from the root down to an error without causes,
/// from left to right.
pub open spec fn paths(e: SimpleError) -> Seq<Seq<SimpleError>>
    decreases e, 1nat,
{
    if e.causes@.len() == 0 {
        seq![seq![e]]
    } else {
        causes_paths(e.causes@).map_values(|p: Seq<SimpleError>| seq![e] + p)
    }
}

/// The paths of the trees rooted at `causes`, from left to right.
pub open spec fn causes_paths(causes: Seq<SimpleError>) -> Seq<Seq<SimpleError>>
    decreases causes,
{
    if causes.len() == 0 {
        seq![]
    } else {
        causes_paths(causes.drop_last()) + paths(causes.last())
    }
}

/// Whether `a` and `b` are the same error, their causes aside.
pub open spec fn same_node(a: SimpleError, b: SimpleError) -> bool {
    &&& a.where_ == b.where_
    &&& a.start_point_of_error == b.start_point_of_error
    &&& a.end_point_of_error == b.end_point_of_error
    &&& match (a.error_detail, b.error_detail) {
        (None, None) => true,
        (Some(x), Some(y)) => {
            &&& x.explanation == y.explanation
            &&& x.solution == y.solution
            &&& x.whole_marker == y.whole_marker
            &&& x.colorization_markers@ == y.colorization_markers@
        },
        _ => false,
    }
}

/// Whether `r` is the chain of `path` turned upside down: the last error of the path on top,
/// each error having the one before it in the path as its only cause.
pub open spec fn inverted_chain(r: SimpleError, path: Seq<SimpleError>) -> bool
    decreases path.len(),
{
    &&& path.len() > 0
    &&& same_node(r, path.last())
    &&& if path.len() == 1 {
        r.causes@.len() == 0
    } else {
        r.causes@.len() == 1 && inverted_chain(r.causes@[0], path.drop_last())
    }
}

fn copy_explanation(d: &SimpleErrorExplanation) -> (r: SimpleErrorExplanation)
    ensures
        r.explanation == d.explanation,
        r.solution == d.solution,
        r.whole_marker == d.whole_marker,
        r.colorization_markers@ == d.colorization_markers@,
{
    let mut markers = Vec::new();
    let mut i: usize = 0;
    while i < d.colorization_markers.len()
        invariant
            i <= d.colorization_markers@.len(),
            markers@ == d.colorization_markers@.take(i as int),
        decreases d.colorization_markers@.len() - i,
    {
        let m = &d.colorization_markers[i];
        markers.push((Span { source: m.0.source.clone(), start: m.0.start, end: m.0.end }, m.1));
        assert(d.colorization_markers@.take(i + 1) =~= d.colorization_markers@.take(i as int).push(
            d.colorization_markers@[i as int],
        ));
        i = i + 1;
    }
    assert(d.colorization_markers@.take(i as int) =~= d.colorization_markers@);
    SimpleErrorExplanation {
        explanation: clone_option(&d.explanation),
        solution: clone_option(&d.solution),
        whole_marker: d.whole_marker,
        colorization_markers: markers,
    }
}

fn clone_option(s: &Option<String>) -> (r: Option<String>)
    ensures
        r == *s,
{
    match s {
        Some(t) => Some(t.clone()),
        None => None,
    }
}

fn push_at_bottom(chain: SimpleError, bottom: SimpleError, Ghost(path): Ghost<Seq<SimpleError>>, Ghost(below): Ghost<SimpleError>) -> (r: SimpleError)
    requires
        inverted_chain(chain, path),
        same_node(bottom, below),
        bottom.causes@.len() == 0,
    ensures
        inverted_chain(r, seq![below] + path),
    decreases path.len(),
{
    let mut chain = chain;
    let ghost top = chain;
    assert((seq![below] + path).last() == path.last());
    let ghost full = seq![below] + path;
    if chain.causes.len() == 0 {
        assert(path.len() == 1);
        chain.causes.push(bottom);
        assert(full.drop_last() =~= seq![below]);
        assert(full.len() == 2);
        assert(chain.causes@[0] == bottom);
        assert(inverted_chain(bottom, seq![below]));
        assert(same_node(chain, full.last()));
        chain
    } else {
        assert(path.len() > 1);
        let inner = chain.causes.pop().unwrap();
        assert(inner == top.causes@[0]);
        let pushed = push_at_bottom(inner, bottom, Ghost(path.drop_last()), Ghost(below));
        chain.causes.push(pushed);
        assert(full.drop_last() =~= seq![below] + path.drop_last());
        assert(chain.causes@.len() == 1);
        assert(chain.causes@[0] == pushed);
        assert(same_node(chain, full.last()));
        chain
    }
}

impl SimpleError {
    /// An error with nothing known of it yet.
    pub fn new() -> (r: Self)
        ensures
            r.where_ is None,
            r.error_detail is None,
            r.start_point_of_error is None,
            r.end_point_of_error is None,
            r.causes@.len() == 0,
    {
        SimpleError {
            where_: None,
            error_detail: None,
            start_point_of_error: None,
            end_point_of_error: None,
            causes: Vec::new(),
        }
    }

    /// This error, explained by `error_detail`.
    pub fn error_detail<ErrorDetail: SimpleErrorDetail>(self, error_detail: ErrorDetail) -> (r: Self)
        ensures
            r.error_detail is Some,
            r.where_ == self.where_,
            r.start_point_of_error == self.start_point_of_error,
            r.end_point_of_error == self.end_point_of_error,
            r.causes == self.causes,
    {
        SimpleError { error_detail: Some(error_detail.explain_error()), ..self }
    }

    /// This error, with `explanation` as its explanation.
    pub fn explained_by(self, explanation: SimpleErrorExplanation) -> (r: Self)
        ensures
            r.error_detail == Some(explanation),
            r.where_ == self.where_,
            r.start_point_of_error == self.start_point_of_error,
            r.end_point_of_error == self.end_point_of_error,
            r.causes == self.causes,
    {
        SimpleError { error_detail: Some(explanation), ..self }
    }

    /// This error, happening at the text `location_str`.
    pub fn at(self, location_str: &str) -> (r: Self)
        ensures
            opt_text(r.where_) == Some(location_str@),
            r.error_detail == self.error_detail,
            r.start_point_of_error == self.start_point_of_error,
            r.end_point_of_error == self.end_point_of_error,
            r.causes == self.causes,
    {
        SimpleError { where_: Some(String::from_str(location_str)), ..self }
    }

    /// This error, starting at `line` and `column`.
    pub fn start_point_of_error(self, line: usize, column: usize) -> (r: Self)
        ensures
            r.start_point_of_error == Some((line, column)),
            r.where_ == self.where_,
            r.error_detail == self.error_detail,
            r.end_point_of_error == self.end_point_of_error,
            r.causes == self.causes,
    {
        SimpleError { start_point_of_error: Some((line, column)), ..self }
    }

    /// This error, ending at `line` and `column`.
    pub fn end_point_of_error(self, line: usize, column: usize) -> (r: Self)
        ensures
            r.end_point_of_error == Some((line, column)),
            r.where_ == self.where_,
            r.error_detail == self.error_detail,
            r.start_point_of_error == self.start_point_of_error,
            r.causes == self.causes,
    {
        SimpleError { end_point_of_error: Some((line, column)), ..self }
    }

    /// This error, with one more cause after those it has.
    pub fn with_cause(self, cause: SimpleError) -> (r: Self)
        ensures
            r.causes@ == self.causes@.push(cause),
            r.where_ == self.where_,
            r.error_detail == self.error_detail,
            r.start_point_of_error == self.start_point_of_error,
            r.end_point_of_error == self.end_point_of_error,
    {
        let mut res = self;
        res.add_cause(cause);
        res
    }

    /// This error, without causes.
    pub fn without_causes(self) -> (r: Self)
        ensures
            r.causes@.len() == 0,
            r.where_ == self.where_,
            r.error_detail == self.error_detail,
            r.start_point_of_error == self.start_point_of_error,
            r.end_point_of_error == self.end_point_of_error,
    {
        SimpleError { causes: Vec::new(), ..self }
    }

    /// Adds a cause after those this error has.
    pub fn add_cause(&mut self, cause: SimpleError)
        ensures
            final(self).causes@ == old(self).causes@.push(cause),
            final(self).where_ == old(self).where_,
            final(self).error_detail == old(self).error_detail,
            final(self).start_point_of_error == old(self).start_point_of_error,
            final(self).end_point_of_error == old(self).end_point_of_error,
    {
        self.causes.push(cause);
    }

    /// This error alone, without its causes.
    fn node_copy(&self) -> (r: SimpleError)
        ensures
            same_node(r, *self),
            r.causes@.len() == 0,
    {
        SimpleError {
            where_: clone_option(&self.where_),
            error_detail: match &self.error_detail {
                Some(d) => Some(copy_explanation(d)),
                None => None,
            },
            start_point_of_error: self.start_point_of_error,
            end_point_of_error: self.end_point_of_error,
            causes: Vec::new(),
        }
    }

    /// The errors without causes in this tree, from left to right.
    pub fn leaf_errors(&self) -> (r: Vec<&SimpleError>)
        ensures
            referred(r@) == leaves(*self),
        decreases self,
    {
        let mut res: Vec<&SimpleError> = Vec::new();
        if self.causes.len() == 0 {
            res.push(self);
            assert(referred(res@) =~= seq![*self]);
            return res;
        }
        let mut i: usize = 0;
        while i < self.causes.len()
            invariant
                i <= self.causes@.len(),
                referred(res@) == causes_leaves(self.causes@.take(i as int)),
            decreases self.causes@.len() - i,
        {
            let sub = self.causes[i].leaf_errors();
            let ghost before = referred(res@);
            let mut j: usize = 0;
            while j < sub.len()
                invariant
                    j <= sub@.len(),
                    referred(res@) == before + referred(sub@).take(j as int),
                decreases sub@.len() - j,
            {
                let ghost prev = res@;
                res.push(sub[j]);
                assert(referred(res@) =~= referred(prev).push(*sub@[j as int]));
                assert(before + referred(sub@).take(j + 1) =~= (before + referred(sub@).take(
                    j as int,
                )).push(*sub@[j as int]));
                j = j + 1;
            }
            assert(referred(sub@).take(sub@.len() as int) =~= referred(sub@));
            assert(self.causes@.take(i + 1).drop_last() =~= self.causes@.take(i as int));
            i = i + 1;
        }
        assert(self.causes@.take(self.causes@.len() as int) =~= self.causes@);
        res
    }

    /// For each path of this tree from the root down to an error without causes, that path
    /// turned upside down: the error without causes on top, each error caused by the one that
    /// was above it. The paths come from left to right.
    pub fn inverted_error_tree(&self) -> (r: Vec<SimpleError>)
        ensures
            r@.len() == paths(*self).len(),
            forall|k: int| 0 <= k < r@.len() ==> inverted_chain(#[trigger] r@[k], paths(*self)[k]),
        decreases self,
    {
        let mut res: Vec<SimpleError> = Vec::new();
        if self.causes.len() == 0 {
            res.push(self.node_copy());
            return res;
        }
        let ghost all = causes_paths(self.causes@);
        let mut i: usize = 0;
        while i < self.causes.len()
            invariant
                i <= self.causes@.len(),
                self.causes@.len() > 0,
                all == causes_paths(self.causes@),
                res@.len() == causes_paths(self.causes@.take(i as int)).len(),
                forall|k: int|
                    0 <= k < res@.len() ==> inverted_chain(
                        #[trigger] res@[k],
                        seq![*self] + causes_paths(self.causes@.take(i as int))[k],
                    ),
            decreases self.causes@.len() - i,
        {
            let sub = self.causes[i].inverted_error_tree();
            let ghost before = res@;
            let ghost done = causes_paths(self.causes@.take(i as int));
            let ghost sub_paths = paths(self.causes@[i as int]);
            proof {
                assert(self.causes@.take(i + 1).drop_last() =~= self.causes@.take(i as int));
                assert(causes_paths(self.causes@.take(i + 1)) == done + sub_paths);
            }
            let mut sub = sub;
            let mut taken: Vec<SimpleError> = Vec::new();
            while sub.len() > 0
                invariant
                    sub@.len() + taken@.len() == sub_paths.len(),
                    forall|k: int| 0 <= k < sub@.len() ==> inverted_chain(#[trigger] sub@[k], sub_paths[k]),
                    forall|k: int|
                        0 <= k < taken@.len() ==> inverted_chain(
                            #[trigger] taken@[k],
                            seq![*self] + sub_paths[sub_paths.len() - 1 - k],
                        ),
                decreases sub@.len(),
            {
                let ghost n = sub@.len();
                let chain = sub.pop().unwrap();
                assert(inverted_chain(chain, sub_paths[n - 1]));
                let pushed = push_at_bottom(chain, self.node_copy(), Ghost(sub_paths[n - 1]), Ghost(*self));
                taken.push(pushed);
            }
            while taken.len() > 0
                invariant
                    before.len() == done.len(),
                    res@.len() + taken@.len() == done.len() + sub_paths.len(),
                    res@.len() >= done.len(),
                    forall|k: int|
                        0 <= k < res@.len() ==> inverted_chain(
                            #[trigger] res@[k],
                            seq![*self] + (done + sub_paths)[k],
                        ),
                    forall|k: int|
                        0 <= k < taken@.len() ==> inverted_chain(
                            #[trigger] taken@[k],
                            seq![*self] + sub_paths[sub_paths.len() - 1 - k],
                        ),
                decreases taken@.len(),
            {
                let chain = taken.pop().unwrap();
                res.push(chain);
            }
            i = i + 1;
        }
        proof {
            assert(self.causes@.take(self.causes@.len() as int) =~= self.causes@);
        }
        res
    }

    /// The text of this error and of its causes, as `SimpleErrorDisplayInfo::as_display_string`
    /// writes it for the snapshot of this error: without colors exactly the text of
    /// `error_model`; with colors the text of a snapshot that differs from `error_model` only in
    /// its location texts, the location of this error being restyled by its markers.
    pub fn to_display_string(&self, colorize: bool) -> (r: String)
        requires
            error_count(*self) <= usize::MAX,
        ensures
            !colorize ==> r@ == display_string(error_model(*self)),
            colorize ==> exists|m: DisplayModel|
                {
                    &&& strip_at(m) == strip_at(error_model(*self))
                    &&& r@ == display_string(m)
                    &&& m.at matches Some(a) ==> exists|styled: Seq<char>|
                        a == trimmed(styled) && restyled_location(*self, styled)
                },
    {
        let info = self.as_display_struct(colorize);
        let r = info.as_display_string();
        assert(r@ == display_string(info@));
        r
    }

    /// What is shown of this error and of its causes, as a tree of snapshots. Without colors it
    /// is `error_model`; with colors, each location is restyled by the markers of its
    /// explanation, and everything else is as without.
    pub fn as_display_struct(&self, colorize: bool) -> (r: SimpleErrorDisplayInfo)
        requires
            error_count(*self) <= usize::MAX,
        ensures
            !colorize ==> r@ == error_model(*self),
            colorize ==> strip_at(r@) == strip_at(error_model(*self)),
            colorize ==> (r@.at matches Some(a) ==> exists|styled: Seq<char>|
                a == trimmed(styled) && restyled_location(*self, styled)),
        decreases self,
    {
        let no_markers = Vec::new();
        assert(no_markers@ =~= Seq::<(Span, Colorization)>::empty());
        let at = match &self.where_ {
            Some(w) => {
                let t = trim(w.as_str());
                if t.as_str().is_empty() {
                    None
                } else if colorize {
                    let styled = match &self.error_detail {
                        Some(d) => range_styling::colorize(w.as_str(), &d.colorization_markers, d.whole_marker),
                        None => range_styling::colorize(w.as_str(), &no_markers, None),
                    };
                    Some(trim(styled.as_str()))
                } else {
                    Some(t)
                }
            },
            None => None,
        };
        let (reason, solution) = match &self.error_detail {
            Some(d) => (clone_text(&d.explanation), clone_text(&d.solution)),
            None => (None, None),
        };
        let ghost children = cause_models(*self);
        let ghost causes = self.causes@;
        proof {
            assert(children =~= causes_models(causes));
        }
        let mut unexplained: usize = 0;
        let mut kept: Vec<SimpleErrorDisplayInfo> = Vec::new();
        let mut i: usize = 0;
        while i < self.causes.len()
            invariant
                causes == self.causes@,
                children == causes_models(causes),
                error_count(*self) <= usize::MAX,
                error_count(*self) == 1 + causes_count(causes),
                i <= causes.len(),
                unexplained <= i,
                unexplained == unexplained_count(children.take(i as int)),
                !colorize ==> models(kept@) == explained_only(children.take(i as int)),
                colorize ==> strips(models(kept@)) == strips(explained_only(children.take(i as int))),
                forall|q: int|
                    0 <= q < kept@.len() ==> complexity_of(#[trigger] kept@[q]@) <= usize::MAX,
            decreases causes.len() - i,
        {
            proof {
                lemma_cause_count(causes, i as int);
                lemma_model_complexity(causes[i as int]);
            }
            let child = self.causes[i].as_display_struct(colorize);
            proof {
                let t = children.take(i + 1);
                assert(t.drop_last() =~= children.take(i as int));
                assert(t.last() == children[i as int]);
                assert(children[i as int] == error_model(causes[i as int]));
                if colorize {
                    lemma_strip_complexity(child@);
                    lemma_strip_complexity(children[i as int]);
                }
            }
            if child.is_explained() {
                let ghost before = kept@;
                kept.push(child);
                proof {
                    assert(models(kept@) =~= models(before).push(child@));
                    let eo = explained_only(children.take(i as int));
                    if colorize {
                        assert(strips(models(kept@)) =~= strips(models(before)).push(
                            strip_at(child@),
                        ));
                        assert(strips(eo.push(children[i as int])) =~= strips(eo).push(
                            strip_at(children[i as int]),
                        ));
                    }
                }
            } else {
                unexplained = unexplained + 1;
            }
            i = i + 1;
        }
        proof {
            assert(children.take(causes.len() as int) =~= children);
        }
        let sorted = sort_infos(kept);
        proof {
            if colorize {
                lemma_strips_sort(models(kept@), explained_only(children));
            }
        }
        let r = SimpleErrorDisplayInfo::new(
            at,
            reason,
            solution,
            self.start_point_of_error,
            self.end_point_of_error,
            unexplained,
            sorted,
        );
        proof {
            assert(r@.explained_causes =~= models(sorted@));
            if colorize {
                assert(strip_at(r@).explained_causes =~= strips(r@.explained_causes));
                assert(strip_at(error_model(*self)).explained_causes =~= strips(
                    error_model(*self).explained_causes,
                ));
            }
        }
        r
    }
}

} // verus!
