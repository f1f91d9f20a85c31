//! The rendering-ready snapshot of an error and of its explained causes, and its text.

use vstd::prelude::*;

use crate::formatting::{
    decimal, ident_lines_except_first, indented, join_strings, joined, pluralize, pluralized,
    texts, usize_to_decimal,
};

verus! {

/// What is shown of one error: where and why it happened, how to solve it, its position, how
/// many of its causes were left unexplained, and the causes that were explained, the simplest
/// first.
pub struct SimpleErrorDisplayInfo {
    /// Where the error happens, usually the input of a parser.
    pub at: Option<String>,
    /// What happened, and why.
    pub reason: Option<String>,
    /// How to solve the error.
    pub solution: Option<String>,
    /// Line and column where the error starts.
    pub on_line_and_column: Option<(usize, usize)>,
    /// Line and column where the error ends.
    pub up_to_line_an_column: Option<(usize, usize)>,
    /// How many causes had nothing to show.
    pub unexplained_causes: usize,
    /// The causes that had something to show.
    pub explained_causes: Vec<SimpleErrorDisplayInfo>,
}

/// The mathematical value of a snapshot: its texts as character sequences, its causes as a
/// sequence of the same.
pub struct DisplayModel {
    pub at: Option<Seq<char>>,
    pub reason: Option<Seq<char>>,
    pub solution: Option<Seq<char>>,
    pub on_line_and_column: Option<(usize, usize)>,
    pub up_to_line_an_column: Option<(usize, usize)>,
    pub unexplained_causes: nat,
    pub explained_causes: Seq<DisplayModel>,
}

/// The view of an optional string.
pub open spec fn opt_text(s: Option<String>) -> Option<Seq<char>> {
    match s {
        Some(t) => Some(t@),
        None => None,
    }
}

/// A model with nothing in it, for positions outside a sequence.
pub open spec fn empty_model() -> DisplayModel {
    DisplayModel {
        at: None,
        reason: None,
        solution: None,
        on_line_and_column: None,
        up_to_line_an_column: None,
        unexplained_causes: 0,
        explained_causes: Seq::empty(),
    }
}

/// The model of a snapshot.
pub open spec fn info_model(info: SimpleErrorDisplayInfo) -> DisplayModel
    decreases info,
{
    DisplayModel {
        at: opt_text(info.at),
        reason: opt_text(info.reason),
        solution: opt_text(info.solution),
        on_line_and_column: info.on_line_and_column,
        up_to_line_an_column: info.up_to_line_an_column,
        unexplained_causes: info.unexplained_causes as nat,
        explained_causes: Seq::new(
            info.explained_causes@.len(),
            |i: int|
                if 0 <= i < info.explained_causes@.len() {
                    info_model(info.explained_causes@[i])
                } else {
                    empty_model()
                },
        ),
    }
}

impl View for SimpleErrorDisplayInfo {
    type V = DisplayModel;

    open spec fn view(&self) -> DisplayModel {
        info_model(*self)
    }
}

/// Whether the snapshot shows anything of its own or through a cause.
pub open spec fn explained(m: DisplayModel) -> bool {
    m.at is Some || m.reason is Some || m.solution is Some || m.on_line_and_column is Some
        || m.explained_causes.len() > 0
}

/// Number of snapshots in the tree rooted at `m`.
pub open spec fn complexity_of(m: DisplayModel) -> nat
    decreases m,
{
    1 + total_complexity(m.explained_causes)
}

/// Sum of the complexities of `causes`.
pub open spec fn total_complexity(causes: Seq<DisplayModel>) -> nat
    decreases causes,
{
    if causes.len() == 0 {
        0
    } else {
        total_complexity(causes.drop_last()) + complexity_of(causes.last())
    }
}


proof fn lemma_total_complexity_prefix(causes: Seq<DisplayModel>, i: int)
    requires
        0 <= i <= causes.len(),
    ensures
        total_complexity(causes.take(i)) <= total_complexity(causes),
    decreases causes.len(),
{
    if i < causes.len() {
        assert(causes.drop_last().take(i) =~= causes.take(i));
        lemma_total_complexity_prefix(causes.drop_last(), i);
    } else {
        assert(causes.take(i) =~= causes);
    }
}

/// Text of the position of the error, when its start is known.
pub open spec fn position_text(info: DisplayModel) -> Option<Seq<char>> {
    match info.on_line_and_column {
        Some((line, column)) => Some(
            "On line "@ + decimal(line as nat) + " and column "@ + decimal(column as nat)
                + match info.up_to_line_an_column {
                Some((end_line, end_column)) => " up to line "@ + decimal(end_line as nat)
                    + " and column "@ + decimal(end_column as nat),
                None => Seq::empty(),
            },
        ),
        None => None,
    }
}

/// Summary of the counts of unexplained and explained causes; none when there is exactly one
/// cause and it is explained, or when there is no cause.
pub open spec fn count_text(info: DisplayModel) -> Option<Seq<char>> {
    let unexplained = info.unexplained_causes;
    let explained = info.explained_causes.len();
    let u = pluralized(unexplained, "unexplained cause"@, ""@);
    let e = pluralized(explained, "explained cause"@, ""@);
    if explained == 1 && unexplained == 0 {
        None
    } else if unexplained > 0 && explained > 0 {
        Some(u + " and "@ + e + "."@)
    } else if unexplained > 0 {
        Some(u + "."@)
    } else if explained > 0 {
        Some(e + "."@)
    } else {
        None
    }
}

/// The explained causes, numbered, each rendered as a cause.
pub open spec fn numbered_causes(causes: Seq<DisplayModel>) -> Seq<Seq<char>>
    decreases causes,
{
    if causes.len() == 0 {
        seq![]
    } else {
        numbered_causes(causes.drop_last()).push(
            "- Cause nº "@ + decimal(causes.len()) + " -\n"@ + display_text(causes.last(), true),
        )
    }
}

/// Text of the explained causes: one cause inline, several numbered and parted by blank lines.
pub open spec fn causes_text(info: DisplayModel) -> Option<Seq<char>>
    decreases info, 1nat,
{
    let causes = info.explained_causes;
    if causes.len() == 0 {
        None
    } else if causes.len() == 1 {
        Some("\n"@ + display_text(causes[0], true))
    } else {
        Some("\n"@ + joined("\n\n"@, numbered_causes(causes)))
    }
}

/// Label of the causes field.
pub open spec fn causes_label(info: DisplayModel) -> Seq<char> {
    if info.explained_causes.len() == 1 {
        "Cause"@
    } else {
        "Causes"@
    }
}

/// Prefix of a field: its label, after a bullet when the error is shown as a cause.
pub open spec fn field_prefix(label: Seq<char>, as_cause: bool) -> Seq<char> {
    (if as_cause {
        "- "@
    } else {
        ""@
    }) + label + ": "@
}

/// One field: prefix and contents, continuation lines aligned under the contents, or indented
/// by at most `cap` (plus 2 for a cause) where a cap is given, as for the Position, At and
/// Causes fields; nothing when there is no content.
pub open spec fn field_text(
    label: Seq<char>,
    cap: Option<nat>,
    content: Option<Seq<char>>,
    as_cause: bool,
) -> Seq<char> {
    match content {
        None => Seq::empty(),
        Some(c) => {
            let prefix = field_prefix(label, as_cause);
            let width = match cap {
                None => prefix.len(),
                Some(m) => {
                    let limit = m + if as_cause {
                        2nat
                    } else {
                        0nat
                    };
                    if prefix.len() <= limit {
                        prefix.len()
                    } else {
                        limit
                    }
                },
            };
            indented(prefix + c, width)
        },
    }
}

/// The reason, or a stand-in when there is none.
pub open spec fn reason_text(info: DisplayModel) -> Seq<char> {
    match info.reason {
        Some(r) => r,
        None => "Unexplained error"@,
    }
}

/// The text of a snapshot: its fields Position, At, Error, Solution, Has and Cause or Causes,
/// one after another, those without content left out.
pub open spec fn display_text(info: DisplayModel, as_cause: bool) -> Seq<char>
    decreases info, 2nat,
{
    let fields = seq![
        field_text("Position"@, Some(2), position_text(info), as_cause),
        field_text("At"@, Some(2), info.at, as_cause),
        field_text("Error"@, None, Some(reason_text(info)), as_cause),
        field_text("Solution"@, None, info.solution, as_cause),
        field_text("Has"@, None, count_text(info), as_cause),
        field_text(causes_label(info), Some(2), causes_text(info), as_cause),
    ];
    joined("\n"@, fields)
}

/// The text of a snapshot; when nothing is explained, the stand-in `"Error: Unexplained error"`.
pub open spec fn display_string(info: DisplayModel) -> Seq<char> {
    if explained(info) {
        display_text(info, false)
    } else {
        "Error: Unexplained error"@
    }
}


fn field_line(label: &str, cap: Option<usize>, content: Option<&str>, as_cause: bool) -> (r: String)
    requires
        cap matches Some(m) ==> m <= 2,
    ensures
        r@ == field_text(
            label@,
            match cap {
                Some(m) => Some(m as nat),
                None => None,
            },
            match content {
                Some(c) => Some(c@),
                None => None,
            },
            as_cause,
        ),
{
    match content {
        None => String::new(),
        Some(c) => {
            let mut prefix = String::new();
            if as_cause {
                prefix.append("- ");
            } else {
                proof { reveal_strlit(""); }
            }
            prefix.append(label);
            prefix.append(": ");
            let ghost p = field_prefix(label@, as_cause);
            assert(prefix@ =~= p);
            let plen = prefix.as_str().unicode_len();
            let width = match cap {
                None => plen,
                Some(m) => {
                    let limit = m + if as_cause {
                        2
                    } else {
                        0
                    };
                    if plen <= limit {
                        plen
                    } else {
                        limit
                    }
                },
            };
            let mut text = prefix;
            text.append(c);
            ident_lines_except_first(text, width)
        },
    }
}

impl SimpleErrorDisplayInfo {
    /// A snapshot from all its fields.
    pub fn new(
        at: Option<String>,
        reason: Option<String>,
        solution: Option<String>,
        on_line_and_column: Option<(usize, usize)>,
        up_to_line_an_column: Option<(usize, usize)>,
        unexplained_causes: usize,
        explained_causes: Vec<SimpleErrorDisplayInfo>,
    ) -> (r: Self)
        ensures
            r == (SimpleErrorDisplayInfo {
                at,
                reason,
                solution,
                on_line_and_column,
                up_to_line_an_column,
                unexplained_causes,
                explained_causes,
            }),
    {
        SimpleErrorDisplayInfo {
            at,
            reason,
            solution,
            on_line_and_column,
            up_to_line_an_column,
            unexplained_causes,
            explained_causes,
        }
    }

    /// Number of snapshots in this tree: this one and those of all its explained causes.
    pub fn complexity(&self) -> (r: usize)
        requires
            complexity_of(self@) <= usize::MAX,
        ensures
            r == complexity_of(self@),
        decreases self,
    {
        let mut sum: usize = 0;
        let mut i: usize = 0;
        let ghost causes = self@.explained_causes;
        proof {
            lemma_total_complexity_prefix(causes, causes.len() as int);
        }
        while i < self.explained_causes.len()
            invariant
                causes == self@.explained_causes,
                self.explained_causes@.len() == causes.len(),
                forall|q: int| 0 <= q < causes.len() ==> #[trigger] causes[q] == self.explained_causes@[q]@,
                i <= causes.len(),
                total_complexity(causes) < usize::MAX,
                sum == total_complexity(causes.take(i as int)),
            decreases causes.len() - i,
        {
            proof {
                assert(causes.take(i + 1).drop_last() =~= causes.take(i as int));
                lemma_total_complexity_prefix(causes, i + 1);
            }
            let c = self.explained_causes[i].complexity();
            sum = sum + c;
            i = i + 1;
        }
        assert(causes.take(causes.len() as int) =~= causes);
        1 + sum
    }

    /// Whether this error shows anything: a location, a reason, a solution, a start position,
    /// or an explained cause.
    pub fn is_explained(&self) -> (r: bool)
        ensures
            r == explained(self@),
    {
        self.at.is_some() || self.reason.is_some() || self.solution.is_some()
            || self.on_line_and_column.is_some() || self.explained_causes.len() > 0
    }

    fn position_string(&self) -> (r: Option<String>)
        ensures
            opt_text(r) == position_text(self@),
    {
        match self.on_line_and_column {
            None => None,
            Some((line, column)) => {
                let mut res = String::from_str("On line ");
                res.append(usize_to_decimal(line).as_str());
                res.append(" and column ");
                res.append(usize_to_decimal(column).as_str());
                match self.up_to_line_an_column {
                    None => {},
                    Some((end_line, end_column)) => {
                        res.append(" up to line ");
                        res.append(usize_to_decimal(end_line).as_str());
                        res.append(" and column ");
                        res.append(usize_to_decimal(end_column).as_str());
                    },
                }
                Some(res)
            },
        }
    }

    fn count_string(&self) -> (r: Option<String>)
        ensures
            opt_text(r) == count_text(self@),
    {
        let unexplained = self.unexplained_causes;
        let explained = self.explained_causes.len();
        let u = pluralize(unexplained, "unexplained cause", "");
        let e = pluralize(explained, "explained cause", "");
        if explained == 1 && unexplained == 0 {
            None
        } else if unexplained > 0 && explained > 0 {
            let mut res = u;
            res.append(" and ");
            res.append(e.as_str());
            res.append(".");
            Some(res)
        } else if unexplained > 0 {
            let mut res = u;
            res.append(".");
            Some(res)
        } else if explained > 0 {
            let mut res = e;
            res.append(".");
            Some(res)
        } else {
            None
        }
    }

    fn causes_string(&self) -> (r: Option<String>)
        ensures
            opt_text(r) == causes_text(self@),
        decreases self, 1nat,
    {
        let n = self.explained_causes.len();
        if n == 0 {
            None
        } else if n == 1 {
            let mut res = String::from_str("\n");
            res.append(self.explained_causes[0].render_text(true).as_str());
            Some(res)
        } else {
            let ghost causes = self@.explained_causes;
            let mut entries: Vec<String> = Vec::new();
            let mut k: usize = 0;
            while k < n
                invariant
                    n == causes.len(),
                    n == self.explained_causes@.len(),
                    causes == self@.explained_causes,
                    forall|q: int| 0 <= q < causes.len() ==> #[trigger] causes[q] == self.explained_causes@[q]@,
                    k <= n,
                    texts(entries@) == numbered_causes(causes.take(k as int)),
                decreases n - k,
            {
                let mut entry = String::from_str("- Cause nº ");
                entry.append(usize_to_decimal(k + 1).as_str());
                entry.append(" -\n");
                entry.append(self.explained_causes[k].render_text(true).as_str());
                let ghost before = entries@;
                entries.push(entry);
                proof {
                    let t = causes.take(k + 1);
                    assert(t.drop_last() =~= causes.take(k as int));
                    assert(t.last() == causes[k as int]);
                    assert(texts(entries@) =~= texts(before).push(entry@));
                }
                k = k + 1;
            }
            assert(causes.take(n as int) =~= causes);
            let mut res = String::from_str("\n");
            res.append(join_strings("\n\n", &entries).as_str());
            Some(res)
        }
    }

    fn render_text(&self, as_cause: bool) -> (r: String)
        ensures
            r@ == display_text(self@, as_cause),
        decreases self, 2nat,
    {
        let position = self.position_string();
        let f_position = field_line("Position", Some(2), match &position {
            Some(p) => Some(p.as_str()),
            None => None,
        }, as_cause);
        let f_at = field_line("At", Some(2), match &self.at {
            Some(a) => Some(a.as_str()),
            None => None,
        }, as_cause);
        let f_error = match &self.reason {
            Some(reason) => field_line("Error", None, Some(reason.as_str()), as_cause),
            None => field_line("Error", None, Some("Unexplained error"), as_cause),
        };
        let f_solution = field_line("Solution", None, match &self.solution {
            Some(s) => Some(s.as_str()),
            None => None,
        }, as_cause);
        let count = self.count_string();
        let f_has = field_line("Has", None, match &count {
            Some(c) => Some(c.as_str()),
            None => None,
        }, as_cause);
        let causes = self.causes_string();
        let label = if self.explained_causes.len() == 1 {
            "Cause"
        } else {
            "Causes"
        };
        let f_causes = field_line(label, Some(2), match &causes {
            Some(c) => Some(c.as_str()),
            None => None,
        }, as_cause);
        let fields = vec![f_position, f_at, f_error, f_solution, f_has, f_causes];
        let ghost expected = seq![
            field_text("Position"@, Some(2), position_text(self@), as_cause),
            field_text("At"@, Some(2), self@.at, as_cause),
            field_text("Error"@, None, Some(reason_text(self@)), as_cause),
            field_text("Solution"@, None, self@.solution, as_cause),
            field_text("Has"@, None, count_text(self@), as_cause),
            field_text(causes_label(self@), Some(2), causes_text(self@), as_cause),
        ];
        assert(texts(fields@) =~= expected);
        assert(display_text(self@, as_cause) =~= joined("\n"@, expected));
        join_strings("\n", &fields)
    }

    /// The text of this error, or none when nothing is explained; `is_displaying_as_cause_of_other`
    /// puts a bullet before each field, as for a cause of another error.
    pub fn __as_display_string(&self, is_displaying_as_cause_of_other: bool) -> (r: Option<String>)
        ensures
            opt_text(r) == if explained(self@) {
                Some(display_text(self@, is_displaying_as_cause_of_other))
            } else {
                None
            },
    {
        if self.is_explained() {
            Some(self.render_text(is_displaying_as_cause_of_other))
        } else {
            None
        }
    }

    /// The text of this error: Position, At, Error, Solution, Has and Cause or Causes, with the
    /// causes nested; `"Error: Unexplained error"` when nothing is explained.
    pub fn as_display_string(&self) -> (r: String)
        ensures
            r@ == display_string(self@),
    {
        match self.__as_display_string(false) {
            Some(text) => text,
            None => String::from_str("Error: Unexplained error"),
        }
    }
}

} // verus!
