//! Choosing a resource: by query, or through the fzf picker.

use vstd::prelude::*;

use crate::config::{Config, NamingRules};
use crate::inventory::{derefs, env_name, kind_label, Resource};
use crate::table::{cell_views, columns, rendered_line};
use crate::text::{
    concat, decimal_digits, first_piece, is_digit, lemma_decimal_digits, lemma_parse_decimal_digits,
    lemma_split_once_concat, lines, lines_seq, opt_view, parse_unsigned, parse_usize, str_eq,
    take_until, u64_to_string, views,
};
use crate::tmux::Placement;

verus! {

/// The cells of a resource's picker line: display name, kind, environment
/// (empty when untagged) and zone.
pub open spec fn resource_row(r: Resource, config: Config) -> Seq<Seq<char>> {
    seq![
        r.display_name_spec(&config.naming),
        kind_label(r.kind),
        match r.env_spec(&config.tags) {
            Some(e) => env_name(e),
            None => Seq::<char>::empty(),
        },
        r.zone@,
    ]
}

pub open spec fn resource_rows(rs: Seq<Resource>, config: Config) -> Seq<Seq<Seq<char>>> {
    rs.map_values(|r: Resource| resource_row(r, config))
}

/// One aligned line per resource, in order.
pub fn render_resources(resources: &[&Resource], config: &Config) -> (r: Vec<String>)
    ensures
        r@.len() == resources@.len(),
        forall|i: int|
            0 <= i < resources@.len() ==> #[trigger] r@[i]@ == rendered_line(
                resource_row(*resources@[i], *config),
                resource_rows(derefs(resources@), *config),
            ),
{
    let mut rows: Vec<[String; 4]> = Vec::new();
    let mut i: usize = 0;
    while i < resources.len()
        invariant
            i <= resources@.len(),
            rows@.len() == i,
            forall|j: int|
                0 <= j < i ==> #[trigger] cell_views(rows@)[j] == resource_row(
                    *resources@[j],
                    *config,
                ),
        decreases resources@.len() - i,
    {
        let resource = resources[i];
        let env = match resource.env(&config.tags) {
            Some(e) => String::from_str(e.as_str()),
            None => String::new(),
        };
        let row: [String; 4] = [
            resource.display_name(&config.naming),
            String::from_str(resource.kind.label()),
            env,
            resource.zone.clone(),
        ];
        assert(views(row@) =~= resource_row(*resource, *config));
        let ghost before = rows@;
        rows.push(row);
        assert forall|j: int| 0 <= j < i + 1 implies #[trigger] cell_views(rows@)[j]
            == resource_row(*resources@[j], *config) by {
            if j < i {
                assert(rows@[j] == before[j]);
                assert(cell_views(before)[j] == resource_row(*resources@[j], *config));
            }
        }
        i = i + 1;
    }
    assert(cell_views(rows@) =~= resource_rows(derefs(resources@), *config));
    columns(rows.as_slice())
}

/// How a picked session should open.
#[derive(Debug, Clone, Copy, PartialEq, Eq, Structural)]
pub enum PickOutcome {
    Window,
    Split,
    VSplit,
    Inline,
}

impl PickOutcome {
    /// Where the session should land in tmux; None means the current
    /// terminal.
    pub fn placement(self) -> (r: Option<Placement>)
        ensures
            r == match self {
                PickOutcome::Window => Some(Placement::Window),
                PickOutcome::Split => Some(Placement::Below),
                PickOutcome::VSplit => Some(Placement::Beside),
                PickOutcome::Inline => None,
            },
    {
        match self {
            PickOutcome::Window => Some(Placement::Window),
            PickOutcome::Split => Some(Placement::Below),
            PickOutcome::VSplit => Some(Placement::Beside),
            PickOutcome::Inline => None,
        }
    }
}

/// A line picked in fzf, and the key that picked it.
#[derive(Debug)]
pub struct Pick {
    pub index: usize,
    pub outcome: PickOutcome,
}

/// How a query resolved.
#[derive(Debug)]
pub enum Selection<'a> {
    /// The query identified exactly one resource without a picker.
    Direct(&'a Resource),
    Picked(&'a Resource, PickOutcome),
    /// The query matched nothing; the caller owns the error message.
    NoMatch,
    Cancelled,
    /// The picker must be opened, preseeded with the query.
    Ask,
}

/// Why fzf's output could not be read.
#[derive(Debug)]
pub enum PickError {
    NoOutput,
    NoSelection,
    UnexpectedKey(String),
    NotANumber,
    OutOfRange,
}

impl PickError {
    pub fn message(&self) -> (r: String)
        ensures
            r@ == match self {
                PickError::NoOutput => "fzf returned no output"@,
                PickError::NoSelection => "fzf returned no selection"@,
                PickError::UnexpectedKey(k) => "unexpected fzf key: "@ + k@,
                PickError::NotANumber => "fzf selection index is not a number"@,
                PickError::OutOfRange => "fzf returned an out-of-range selection"@,
            },
    {
        match self {
            PickError::NoOutput => String::from_str("fzf returned no output"),
            PickError::NoSelection => String::from_str("fzf returned no selection"),
            PickError::UnexpectedKey(k) => concat("unexpected fzf key: ", k.as_str()),
            PickError::NotANumber => String::from_str("fzf selection index is not a number"),
            PickError::OutOfRange => String::from_str("fzf returned an out-of-range selection"),
        }
    }
}

/// Candidates whose full name is the query.
pub open spec fn exact_matches(cands: Seq<Resource>, q: Seq<char>) -> Seq<Resource> {
    cands.filter(|r: Resource| r.name@ == q)
}

/// Candidates the query matches, ignoring case, on the full or display name.
pub open spec fn fuzzy_matches(cands: Seq<Resource>, q: Seq<char>, naming: NamingRules) -> Seq<
    Resource,
> {
    cands.filter(|r: Resource| r.matches_spec(q, &naming))
}

fn exact_refs<'a>(candidates: &[&'a Resource], query: &str) -> (r: Vec<&'a Resource>)
    ensures
        derefs(r@) == exact_matches(derefs(candidates@), query@),
{
    let ghost all = derefs(candidates@);
    let ghost pred = |r: Resource| r.name@ == query@;
    let mut out: Vec<&'a Resource> = Vec::new();
    let mut i: usize = 0;
    while i < candidates.len()
        invariant
            i <= candidates@.len(),
            all == derefs(candidates@),
            pred == (|r: Resource| r.name@ == query@),
            derefs(out@) == all.subrange(0, i as int).filter(pred),
        decreases candidates@.len() - i,
    {
        reveal_with_fuel(Seq::filter, 1);
        let c = candidates[i];
        let ghost before = derefs(out@);
        if str_eq(c.name.as_str(), query) {
            out.push(c);
            assert(derefs(out@) =~= before.push(*c));
        }
        assert(all.subrange(0, i + 1).drop_last() =~= all.subrange(0, i as int));
        i = i + 1;
    }
    assert(all.subrange(0, i as int) =~= all);
    out
}

fn fuzzy_refs<'a>(candidates: &[&'a Resource], query: &str, naming: &NamingRules) -> (r: Vec<
    &'a Resource,
>)
    ensures
        derefs(r@) == fuzzy_matches(derefs(candidates@), query@, *naming),
{
    let ghost all = derefs(candidates@);
    let ghost pred = |r: Resource| r.matches_spec(query@, naming);
    let mut out: Vec<&'a Resource> = Vec::new();
    let mut i: usize = 0;
    while i < candidates.len()
        invariant
            i <= candidates@.len(),
            all == derefs(candidates@),
            pred == (|r: Resource| r.matches_spec(query@, naming)),
            derefs(out@) == all.subrange(0, i as int).filter(pred),
        decreases candidates@.len() - i,
    {
        reveal_with_fuel(Seq::filter, 1);
        let c = candidates[i];
        let ghost before = derefs(out@);
        if c.matches(query, naming) {
            out.push(c);
            assert(derefs(out@) =~= before.push(*c));
        }
        assert(all.subrange(0, i + 1).drop_last() =~= all.subrange(0, i as int));
        i = i + 1;
    }
    assert(all.subrange(0, i as int) =~= all);
    out
}

/// The shared resolve-a-query flow: an exact name match wins, a unique
/// substring match resolves directly, no match is reported, and anything
/// else (or no query) asks for the picker.
pub fn select<'a>(candidates: &[&'a Resource], query: Option<&str>, naming: &NamingRules) -> (r:
    Selection<'a>)
    ensures
        match query {
            None => r is Ask,
            Some(q) => {
                let exact = exact_matches(derefs(candidates@), q@);
                let fuzzy = fuzzy_matches(derefs(candidates@), q@, *naming);
                if exact.len() == 1 {
                    r matches Selection::Direct(x) && *x == exact[0]
                } else if fuzzy.len() == 0 {
                    r is NoMatch
                } else if fuzzy.len() == 1 {
                    r matches Selection::Direct(x) && *x == fuzzy[0]
                } else {
                    r is Ask
                }
            },
        },
{
    let query = match query {
        Some(q) => q,
        None => return Selection::Ask,
    };
    let exact = exact_refs(candidates, query);
    if exact.len() == 1 {
        assert(derefs(exact@)[0] == *exact@[0]);
        return Selection::Direct(exact[0]);
    }
    let matched = fuzzy_refs(candidates, query, naming);
    if matched.len() == 0 {
        Selection::NoMatch
    } else if matched.len() == 1 {
        assert(derefs(matched@)[0] == *matched@[0]);
        Selection::Direct(matched[0])
    } else {
        Selection::Ask
    }
}

/// The candidate the picker chose, or `Cancelled` when it was dismissed.
pub fn resolve_pick<'a>(candidates: &[&'a Resource], pick: Option<Pick>) -> (r: Result<
    Selection<'a>,
    PickError,
>)
    ensures
        match pick {
            None => r matches Ok(Selection::Cancelled),
            Some(p) => if p.index < candidates@.len() {
                r matches Ok(Selection::Picked(x, o)) && x == candidates@[p.index as int] && o
                    == p.outcome
            } else {
                r matches Err(PickError::OutOfRange)
            },
        },
{
    match pick {
        None => Ok(Selection::Cancelled),
        Some(p) => if p.index < candidates.len() {
            Ok(Selection::Picked(candidates[p.index], p.outcome))
        } else {
            Err(PickError::OutOfRange)
        },
    }
}

/// The outcome fzf's first output line (the pressed key) stands for.
pub open spec fn key_outcome(k: Seq<char>) -> Option<PickOutcome> {
    if k == ""@ {
        Some(PickOutcome::Window)
    } else if k == "ctrl-s"@ {
        Some(PickOutcome::Split)
    } else if k == "ctrl-v"@ {
        Some(PickOutcome::VSplit)
    } else if k == "ctrl-o"@ {
        Some(PickOutcome::Inline)
    } else {
        None
    }
}

/// The index at the start of a picked line, before its first tab.
pub open spec fn line_index(l: Seq<char>) -> Option<nat> {
    parse_unsigned(take_until(l, '\t'), usize::MAX as nat)
}

/// The index written before a line of the picker's input is the index read
/// back from that line once it is picked.
pub proof fn lemma_index_reads_back(i: nat, line: Seq<char>)
    requires
        i <= usize::MAX,
    ensures
        line_index(decimal_digits(i) + "\t"@ + line) == Some(i),
{
    reveal_strlit("\t");
    let d = decimal_digits(i);
    lemma_decimal_digits(i);
    assert forall|j: int| 0 <= j < d.len() implies d[j] != '\t' by {
        assert(is_digit(d[j]));
    }
    assert(d + "\t"@ + line =~= d + seq!['\t'] + line);
    lemma_split_once_concat(d, '\t', line);
    lemma_parse_decimal_digits(i, usize::MAX as nat);
}

fn key_outcome_exec(k: &str) -> (r: Option<PickOutcome>)
    ensures
        r == key_outcome(k@),
{
    if str_eq(k, "") {
        Some(PickOutcome::Window)
    } else if str_eq(k, "ctrl-s") {
        Some(PickOutcome::Split)
    } else if str_eq(k, "ctrl-v") {
        Some(PickOutcome::VSplit)
    } else if str_eq(k, "ctrl-o") {
        Some(PickOutcome::Inline)
    } else {
        None
    }
}

fn line_index_exec(line: &str) -> (r: Option<usize>)
    ensures
        match r {
            Some(i) => line_index(line@) == Some(i as nat),
            None => line_index(line@) is None,
        },
{
    let field = first_piece(line, '\t');
    parse_usize(field.as_str())
}

/// Reads fzf's output with placement keys: the key line, then the picked
/// line, whose index comes before its first tab.
pub fn parse_output(stdout: &str) -> (r: Result<Pick, PickError>)
    ensures
        ({
            let ls = lines_seq(stdout@);
            match r {
                Ok(p) => ls.len() >= 2 && key_outcome(ls[0]) == Some(p.outcome) && line_index(ls[1])
                    == Some(p.index as nat),
                Err(PickError::NoOutput) => ls.len() == 0,
                Err(PickError::NoSelection) => ls.len() == 1,
                Err(PickError::UnexpectedKey(k)) => ls.len() >= 2 && key_outcome(ls[0]) is None
                    && k@ == ls[0],
                Err(PickError::NotANumber) => ls.len() >= 2 && key_outcome(ls[0]) is Some
                    && line_index(ls[1]) is None,
                Err(PickError::OutOfRange) => false,
            }
        }),
{
    let ls = lines(stdout);
    if ls.len() == 0 {
        return Err(PickError::NoOutput);
    }
    if ls.len() == 1 {
        return Err(PickError::NoSelection);
    }
    assert(views(ls@)[0] == ls@[0]@ && views(ls@)[1] == ls@[1]@);
    let outcome = match key_outcome_exec(ls[0].as_str()) {
        Some(o) => o,
        None => return Err(PickError::UnexpectedKey(ls[0].clone())),
    };
    match line_index_exec(ls[1].as_str()) {
        Some(index) => Ok(Pick { index, outcome }),
        None => Err(PickError::NotANumber),
    }
}

/// What reading fzf's output with placement keys gives: nothing when fzf
/// was dismissed, else the pressed key's outcome and the picked index, or
/// the error that the output shows.
pub open spec fn keyed_pick(stdout: Option<Seq<char>>, r: Result<Option<Pick>, PickError>) -> bool {
    match stdout {
        None => r matches Ok(None),
        Some(s) => {
            let ls = lines_seq(s);
            match r {
                Ok(Some(p)) => ls.len() >= 2 && key_outcome(ls[0]) == Some(p.outcome) && line_index(
                    ls[1],
                ) == Some(p.index as nat),
                Ok(None) => false,
                Err(PickError::NoOutput) => ls.len() == 0,
                Err(PickError::NoSelection) => ls.len() == 1,
                Err(PickError::UnexpectedKey(k)) => ls.len() >= 2 && key_outcome(ls[0]) is None
                    && k@ == ls[0],
                Err(PickError::NotANumber) => ls.len() >= 2 && key_outcome(ls[0]) is Some
                    && line_index(ls[1]) is None,
                Err(PickError::OutOfRange) => false,
            }
        },
    }
}

/// What reading fzf's output without placement keys gives: nothing when
/// fzf was dismissed, else the index on its first line, or the error.
pub open spec fn keyless_pick(stdout: Option<Seq<char>>, r: Result<Option<usize>, PickError>) -> bool {
    match stdout {
        None => r matches Ok(None),
        Some(s) => {
            let ls = lines_seq(s);
            match r {
                Ok(Some(i)) => ls.len() >= 1 && line_index(ls[0]) == Some(i as nat),
                Ok(None) => false,
                Err(PickError::NoSelection) => ls.len() == 0,
                Err(PickError::NotANumber) => ls.len() >= 1 && line_index(ls[0]) is None,
                Err(_) => false,
            }
        },
    }
}

/// The pick in fzf's output (placement keys on); `None` when fzf was
/// dismissed.
pub fn pick(stdout: Option<&str>) -> (r: Result<Option<Pick>, PickError>)
    ensures
        keyed_pick(opt_view(stdout), r),
{
    match stdout {
        None => Ok(None),
        Some(s) => match parse_output(s) {
            Ok(p) => Ok(Some(p)),
            Err(e) => Err(e),
        },
    }
}

/// The picked index in fzf's output (no placement keys); `None` when fzf
/// was dismissed.
pub fn pick_without_placement(stdout: Option<&str>) -> (r: Result<Option<usize>, PickError>)
    ensures
        keyless_pick(opt_view(stdout), r),
{
    match stdout {
        None => Ok(None),
        Some(s) => {
            let ls = lines(s);
            if ls.len() == 0 {
                return Err(PickError::NoSelection);
            }
            assert(views(ls@)[0] == ls@[0]@);
            match line_index_exec(ls[0].as_str()) {
                Some(i) => Ok(Some(i)),
                None => Err(PickError::NotANumber),
            }
        },
    }
}

/// The pick in fzf's output: with placement keys, the key decides the
/// outcome; without them, the session opens in the current terminal.
pub fn read_pick(stdout: Option<&str>, with_placement_keys: bool) -> (r: Result<Option<Pick>, PickError>)
    ensures
        with_placement_keys ==> keyed_pick(opt_view(stdout), r),
        !with_placement_keys ==> keyless_pick(
            opt_view(stdout),
            match r {
                Ok(Some(p)) => Ok(Some(p.index)),
                Ok(None) => Ok(None),
                Err(e) => Err(e),
            },
        ) && (r matches Ok(Some(p)) ==> p.outcome == PickOutcome::Inline),
{
    if with_placement_keys {
        pick(stdout)
    } else {
        match pick_without_placement(stdout) {
            Ok(Some(index)) => Ok(Some(Pick { index, outcome: PickOutcome::Inline })),
            Ok(None) => Ok(None),
            Err(e) => Err(e),
        }
    }
}

/// The legend of the placement keys, shown under the header.
pub const KEY_LEGEND: &'static str = "enter=window  ctrl-s=split  ctrl-v=vsplit  ctrl-o=here";

/// fzf's arguments: tab-separated input whose first field (the index) is
/// hidden, one pick, the header (with the key legend and the expected keys
/// when placement keys are on) and the initial query.
pub open spec fn fzf_args_spec(header: Seq<char>, query: Option<Seq<char>>, keys: bool) -> Seq<
    Seq<char>,
> {
    seq!["--delimiter=\t"@, "--with-nth=2.."@, "--no-multi"@] + (if keys {
        seq!["--expect=ctrl-s,ctrl-v,ctrl-o"@, "--header="@ + header + "\n"@ + KEY_LEGEND@]
    } else {
        seq!["--header="@ + header]
    }) + match query {
        Some(q) => seq!["--query="@ + q],
        None => Seq::<Seq<char>>::empty(),
    }
}

pub fn fzf_args(header: &str, initial_query: Option<&str>, with_placement_keys: bool) -> (r: Vec<
    String,
>)
    ensures
        views(r@) == fzf_args_spec(
            header@,
            match initial_query {
                Some(q) => Some(q@),
                None => None,
            },
            with_placement_keys,
        ),
{
    let mut args: Vec<String> = Vec::new();
    args.push(String::from_str("--delimiter=\t"));
    args.push(String::from_str("--with-nth=2.."));
    args.push(String::from_str("--no-multi"));
    if with_placement_keys {
        args.push(String::from_str("--expect=ctrl-s,ctrl-v,ctrl-o"));
        let a = concat("--header=", header);
        let b = concat(a.as_str(), "\n");
        args.push(concat(b.as_str(), KEY_LEGEND));
    } else {
        args.push(concat("--header=", header));
    }
    if let Some(q) = initial_query {
        args.push(concat("--query=", q));
    }
    let ghost q = match initial_query {
        Some(q) => Some(q@),
        None => None::<Seq<char>>,
    };
    assert(views(args@) =~= fzf_args_spec(header@, q, with_placement_keys));
    args
}

/// How fzf ended, from its exit code.
#[derive(Debug, Clone, Copy, PartialEq, Eq, Structural)]
pub enum FzfExit {
    /// A line was chosen; its output is to be read.
    Picked,
    /// No match (1) or interrupted (130): nothing was chosen.
    Cancelled,
    /// Any other code, or killed by a signal.
    Failed,
}

pub fn fzf_exit(code: Option<i32>) -> (r: FzfExit)
    ensures
        r == match code {
            Some(0) => FzfExit::Picked,
            Some(1) | Some(130) => FzfExit::Cancelled,
            _ => FzfExit::Failed,
        },
{
    match code {
        Some(0) => FzfExit::Picked,
        Some(1) | Some(130) => FzfExit::Cancelled,
        _ => FzfExit::Failed,
    }
}

/// fzf's input: `index\tline\n` for each line, in order.
pub open spec fn fzf_input_spec(ls: Seq<Seq<char>>) -> Seq<char>
    decreases ls.len(),
{
    if ls.len() == 0 {
        Seq::<char>::empty()
    } else {
        fzf_input_spec(ls.drop_last()) + decimal_digits((ls.len() - 1) as nat) + "\t"@ + ls.last()
            + "\n"@
    }
}

pub fn fzf_input(lines: &[String]) -> (r: String)
    ensures
        r@ == fzf_input_spec(views(lines@)),
{
    let ghost ls = views(lines@);
    let mut out = String::new();
    let mut i: usize = 0;
    while i < lines.len()
        invariant
            i <= lines@.len(),
            ls == views(lines@),
            out@ == fzf_input_spec(ls.subrange(0, i as int)),
        decreases lines@.len() - i,
    {
        let n = u64_to_string(i as u64);
        let a = concat(out.as_str(), n.as_str());
        let b = concat(a.as_str(), "\t");
        let c = concat(b.as_str(), lines[i].as_str());
        out = concat(c.as_str(), "\n");
        assert(ls.subrange(0, i + 1).drop_last() =~= ls.subrange(0, i as int));
        i = i + 1;
    }
    assert(ls.subrange(0, i as int) =~= ls);
    out
}

} // verus!
