//! Architecture detection: classifies a project as MVC, layered, clean or
//! hexagonal from conventional directory names in its file paths.
//!
//! Every indicator found in a (lower-cased) path adds the weight of its
//! pattern to that pattern's score. Scores are kept in tenths, so the
//! weights 1.5, 1.2 and 1.0 are the integers 15, 12 and 10. The pattern with
//! the highest score wins, ties going to the earlier pattern of the order
//! MVC, layered, clean, hexagonal; with no indicator at all the pattern is
//! unknown.

use vstd::prelude::*;
use crate::models::FileMeta;
use crate::text::{append_str, lists, lowercase, has_substring, sorted_unique, str_contains, strictly_sorted, to_lowercase};

verus! {

/// Architecture pattern.
#[derive(Debug, Clone, Copy, PartialEq, Eq, Structural)]
pub enum ArchitecturePattern {
    Mvc,
    Layered,
    Clean,
    Hexagonal,
    Unknown,
}

/// Name of a pattern.
pub open spec fn pattern_name(p: ArchitecturePattern) -> Seq<char> {
    match p {
        ArchitecturePattern::Mvc => "mvc"@,
        ArchitecturePattern::Layered => "layered"@,
        ArchitecturePattern::Clean => "clean"@,
        ArchitecturePattern::Hexagonal => "hexagonal"@,
        ArchitecturePattern::Unknown => "unknown"@,
    }
}

impl ArchitecturePattern {
    /// The pattern's name, as stored and shown.
    pub fn as_str(&self) -> (r: &'static str)
        ensures
            r@ == pattern_name(*self),
    {
        match self {
            ArchitecturePattern::Mvc => "mvc",
            ArchitecturePattern::Layered => "layered",
            ArchitecturePattern::Clean => "clean",
            ArchitecturePattern::Hexagonal => "hexagonal",
            ArchitecturePattern::Unknown => "unknown",
        }
    }
}

/// An edge relevant to architecture classification.
#[derive(Debug, Clone)]
pub struct ArchitectureEdge {
    pub source: String,
    pub target: String,
    pub kind: String,
}

/// Evidence collected during detection.
#[derive(Debug, Clone)]
pub struct ArchitectureEvidence {
    /// File IDs matching pattern indicators.
    pub nodes: Vec<String>,
    /// Import relationships supporting the classification.
    pub edges: Vec<ArchitectureEdge>,
    /// Human-readable reasons for the classification.
    pub reasons: Vec<String>,
}

impl Default for ArchitectureEvidence {
    fn default() -> (r: Self)
        ensures
            r.nodes@.len() == 0,
            r.edges@.len() == 0,
            r.reasons@.len() == 0,
    {
        ArchitectureEvidence { nodes: Vec::new(), edges: Vec::new(), reasons: Vec::new() }
    }
}

/// Number of path indicators over all patterns.
pub const INDICATOR_COUNT: usize = 17;

/// The directory indicator at position `q` of the rule table.
pub open spec fn indicator_text(q: int) -> Seq<char> {
    if q == 0 { "ports/"@ }
    else if q == 1 { "adapters/"@ }
    else if q == 2 { "core/ports/"@ }
    else if q == 3 { "hexagon/"@ }
    else if q == 4 { "domain/"@ }
    else if q == 5 { "application/"@ }
    else if q == 6 { "infrastructure/"@ }
    else if q == 7 { "presentation/"@ }
    else if q == 8 { "controllers/"@ }
    else if q == 9 { "services/"@ }
    else if q == 10 { "repositories/"@ }
    else if q == 11 { "daos/"@ }
    else if q == 12 { "dto/"@ }
    else if q == 13 { "models/"@ }
    else if q == 14 { "views/"@ }
    else if q == 15 { "controllers/"@ }
    else { "routes/"@ }
}

/// The indicator at position `q` without its trailing slash, as reasons
/// quote it.
pub open spec fn indicator_name(q: int) -> Seq<char> {
    if q == 0 { "ports"@ }
    else if q == 1 { "adapters"@ }
    else if q == 2 { "core/ports"@ }
    else if q == 3 { "hexagon"@ }
    else if q == 4 { "domain"@ }
    else if q == 5 { "application"@ }
    else if q == 6 { "infrastructure"@ }
    else if q == 7 { "presentation"@ }
    else if q == 8 { "controllers"@ }
    else if q == 9 { "services"@ }
    else if q == 10 { "repositories"@ }
    else if q == 11 { "daos"@ }
    else if q == 12 { "dto"@ }
    else if q == 13 { "models"@ }
    else if q == 14 { "views"@ }
    else if q == 15 { "controllers"@ }
    else { "routes"@ }
}

/// The pattern that the indicator at position `q` points to.
pub open spec fn indicator_pattern(q: int) -> ArchitecturePattern {
    if q < 4 {
        ArchitecturePattern::Hexagonal
    } else if q < 8 {
        ArchitecturePattern::Clean
    } else if q < 13 {
        ArchitecturePattern::Layered
    } else {
        ArchitecturePattern::Mvc
    }
}

/// Weight of a pattern's indicator, in tenths.
pub open spec fn pattern_weight(p: ArchitecturePattern) -> nat {
    match p {
        ArchitecturePattern::Hexagonal => 15,
        ArchitecturePattern::Clean => 12,
        _ => 10,
    }
}

/// The reason recorded when indicator `q` is found in `path`.
pub open spec fn reason_text(q: int, path: Seq<char>) -> Seq<char> {
    "Found '"@ + indicator_name(q) + "' in path '"@ + path + "'"@
}

/// Indicator `q` occurs in the lower-cased path of `f`.
pub open spec fn indicator_found(f: FileMeta, q: int) -> bool {
    has_substring(lowercase(f.path@), indicator_text(q))
}

/// Reasons for the first `q` indicators of file `f`.
pub open spec fn file_reasons(f: FileMeta, q: nat) -> Seq<Seq<char>>
    decreases q,
{
    if q == 0 {
        Seq::empty()
    } else {
        file_reasons(f, (q - 1) as nat) + if indicator_found(f, q - 1) {
            seq![reason_text(q - 1, f.path@)]
        } else {
            Seq::empty()
        }
    }
}

/// File IDs recorded for the first `q` indicators of file `f`: one per
/// indicator found.
pub open spec fn file_hits(f: FileMeta, q: nat) -> Seq<Seq<char>>
    decreases q,
{
    if q == 0 {
        Seq::empty()
    } else {
        file_hits(f, (q - 1) as nat) + if indicator_found(f, q - 1) {
            seq![f.id@]
        } else {
            Seq::empty()
        }
    }
}

/// Score of pattern `p` from the first `q` indicators of file `f`.
pub open spec fn file_score(f: FileMeta, p: ArchitecturePattern, q: nat) -> nat
    decreases q,
{
    if q == 0 {
        0
    } else {
        file_score(f, p, (q - 1) as nat) + if indicator_found(f, q - 1) && indicator_pattern(q - 1) == p {
            pattern_weight(p)
        } else {
            0
        }
    }
}

/// All reasons, file by file and indicator by indicator.
pub open spec fn all_reasons(files: Seq<FileMeta>) -> Seq<Seq<char>>
    decreases files.len(),
{
    if files.len() == 0 {
        Seq::empty()
    } else {
        all_reasons(files.drop_last()) + file_reasons(files.last(), INDICATOR_COUNT as nat)
    }
}

/// All file IDs recorded, one per indicator found.
pub open spec fn all_hits(files: Seq<FileMeta>) -> Seq<Seq<char>>
    decreases files.len(),
{
    if files.len() == 0 {
        Seq::empty()
    } else {
        all_hits(files.drop_last()) + file_hits(files.last(), INDICATOR_COUNT as nat)
    }
}

/// Score of pattern `p` over all files, in tenths.
pub open spec fn total_score(files: Seq<FileMeta>, p: ArchitecturePattern) -> nat
    decreases files.len(),
{
    if files.len() == 0 {
        0
    } else {
        total_score(files.drop_last(), p) + file_score(files.last(), p, INDICATOR_COUNT as nat)
    }
}

/// The winner among four scores given in the order MVC, layered, clean,
/// hexagonal: the highest, the earliest on a tie.
pub open spec fn best_of(m: nat, l: nat, c: nat, h: nat) -> (ArchitecturePattern, nat) {
    if m >= l && m >= c && m >= h {
        (ArchitecturePattern::Mvc, m)
    } else if l >= c && l >= h {
        (ArchitecturePattern::Layered, l)
    } else if c >= h {
        (ArchitecturePattern::Clean, c)
    } else {
        (ArchitecturePattern::Hexagonal, h)
    }
}

/// The winning pattern of `files` and its score.
pub open spec fn best_pattern(files: Seq<FileMeta>) -> (ArchitecturePattern, nat) {
    best_of(
        total_score(files, ArchitecturePattern::Mvc),
        total_score(files, ArchitecturePattern::Layered),
        total_score(files, ArchitecturePattern::Clean),
        total_score(files, ArchitecturePattern::Hexagonal),
    )
}

/// Views of a list of strings.
pub open spec fn views(s: Seq<String>) -> Seq<Seq<char>> {
    s.map_values(|x: String| x@)
}

/// Outcome of the classification, before it is turned into a confidence.
#[derive(Debug, Clone)]
pub struct ArchitectureClassification {
    /// Detected pattern.
    pub pattern: ArchitecturePattern,
    /// Score of the detected pattern, in tenths.
    pub score_tenths: u128,
    /// Evidence supporting the classification; none for an unknown pattern.
    pub evidence: Option<ArchitectureEvidence>,
}

fn indicator(q: usize) -> (r: (&'static str, &'static str))
    requires
        q < INDICATOR_COUNT,
    ensures
        r.0@ == indicator_text(q as int),
        r.1@ == indicator_name(q as int),
{
    if q == 0 { ("ports/", "ports") }
    else if q == 1 { ("adapters/", "adapters") }
    else if q == 2 { ("core/ports/", "core/ports") }
    else if q == 3 { ("hexagon/", "hexagon") }
    else if q == 4 { ("domain/", "domain") }
    else if q == 5 { ("application/", "application") }
    else if q == 6 { ("infrastructure/", "infrastructure") }
    else if q == 7 { ("presentation/", "presentation") }
    else if q == 8 { ("controllers/", "controllers") }
    else if q == 9 { ("services/", "services") }
    else if q == 10 { ("repositories/", "repositories") }
    else if q == 11 { ("daos/", "daos") }
    else if q == 12 { ("dto/", "dto") }
    else if q == 13 { ("models/", "models") }
    else if q == 14 { ("views/", "views") }
    else if q == 15 { ("controllers/", "controllers") }
    else { ("routes/", "routes") }
}

fn reason(name: &str, path: &String) -> (r: String)
    ensures
        r@ == "Found '"@ + name@ + "' in path '"@ + path@ + "'"@,
{
    let mut r = String::new();
    append_str(&mut r, "Found '");
    append_str(&mut r, name);
    append_str(&mut r, "' in path '");
    append_str(&mut r, path.as_str());
    append_str(&mut r, "'");
    assert(Seq::<char>::empty() + "Found '"@ =~= "Found '"@);
    r
}

proof fn lemma_file_score_bound(f: FileMeta, p: ArchitecturePattern, q: nat)
    ensures
        file_score(f, p, q) <= 15 * q,
    decreases q,
{
    if q > 0 {
        lemma_file_score_bound(f, p, (q - 1) as nat);
    }
}

proof fn lemma_total_score_bound(files: Seq<FileMeta>, p: ArchitecturePattern)
    ensures
        total_score(files, p) <= 255 * files.len(),
    decreases files.len(),
{
    if files.len() > 0 {
        lemma_total_score_bound(files.drop_last(), p);
        lemma_file_score_bound(files.last(), p, INDICATOR_COUNT as nat);
    }
}

/// Scores every pattern over the paths of `files` and picks the best one.
/// The evidence lists the distinct IDs of the files where an indicator was
/// found, in increasing order, and one reason per indicator found, file by
/// file in the order of the rule table.
pub fn classify_architecture(files: &Vec<FileMeta>) -> (r: ArchitectureClassification)
    ensures
        best_pattern(files@).1 == 0 ==> r.pattern == ArchitecturePattern::Unknown && r.score_tenths == 0
            && r.evidence is None,
        best_pattern(files@).1 > 0 ==> {
            &&& r.pattern == best_pattern(files@).0
            &&& r.score_tenths == best_pattern(files@).1
            &&& r.evidence matches Some(ev) && {
                &&& strictly_sorted(ev.nodes@)
                &&& forall|y: Seq<char>| lists(ev.nodes@, y) <==> all_hits(files@).contains(y)
                &&& ev.edges@.len() == 0
                &&& views(ev.reasons@) == all_reasons(files@)
            }
        },
{
    let mut mvc: u128 = 0;
    let mut layered: u128 = 0;
    let mut clean: u128 = 0;
    let mut hexagonal: u128 = 0;
    let mut hits: Vec<String> = Vec::new();
    let mut reasons: Vec<String> = Vec::new();
    let mut k: usize = 0;
    while k < files.len()
        invariant
            k <= files@.len(),
            mvc == total_score(files@.take(k as int), ArchitecturePattern::Mvc),
            layered == total_score(files@.take(k as int), ArchitecturePattern::Layered),
            clean == total_score(files@.take(k as int), ArchitecturePattern::Clean),
            hexagonal == total_score(files@.take(k as int), ArchitecturePattern::Hexagonal),
            views(hits@) == all_hits(files@.take(k as int)),
            views(reasons@) == all_reasons(files@.take(k as int)),
        decreases files@.len() - k,
    {
        let f = &files[k];
        let lower = to_lowercase(f.path.as_str());
        let ghost prefix = files@.take(k as int);
        let ghost hits0 = views(hits@);
        let ghost reasons0 = views(reasons@);
        let ghost m0 = mvc;
        let ghost l0 = layered;
        let ghost c0 = clean;
        let ghost h0 = hexagonal;
        proof {
            lemma_total_score_bound(files@.take(k + 1), ArchitecturePattern::Mvc);
            lemma_total_score_bound(files@.take(k + 1), ArchitecturePattern::Layered);
            lemma_total_score_bound(files@.take(k + 1), ArchitecturePattern::Clean);
            lemma_total_score_bound(files@.take(k + 1), ArchitecturePattern::Hexagonal);
            assert(files@.take(k + 1).drop_last() =~= prefix);
            assert(files@.take(k + 1).last() == *f);
        }
        let mut q: usize = 0;
        while q < INDICATOR_COUNT
            invariant
                q <= INDICATOR_COUNT,
                lower@ == lowercase(f.path@),
                mvc == m0 + file_score(*f, ArchitecturePattern::Mvc, q as nat),
                layered == l0 + file_score(*f, ArchitecturePattern::Layered, q as nat),
                clean == c0 + file_score(*f, ArchitecturePattern::Clean, q as nat),
                hexagonal == h0 + file_score(*f, ArchitecturePattern::Hexagonal, q as nat),
                m0 + file_score(*f, ArchitecturePattern::Mvc, INDICATOR_COUNT as nat) <= 255 * (k + 1),
                l0 + file_score(*f, ArchitecturePattern::Layered, INDICATOR_COUNT as nat) <= 255 * (k + 1),
                c0 + file_score(*f, ArchitecturePattern::Clean, INDICATOR_COUNT as nat) <= 255 * (k + 1),
                h0 + file_score(*f, ArchitecturePattern::Hexagonal, INDICATOR_COUNT as nat) <= 255 * (k + 1),
                k < files@.len(),
                views(hits@) == hits0 + file_hits(*f, q as nat),
                views(reasons@) == reasons0 + file_reasons(*f, q as nat),
            decreases INDICATOR_COUNT - q,
        {
            proof {
                lemma_file_score_monotone(*f, ArchitecturePattern::Mvc, (q + 1) as nat, INDICATOR_COUNT as nat);
                lemma_file_score_monotone(*f, ArchitecturePattern::Layered, (q + 1) as nat, INDICATOR_COUNT as nat);
                lemma_file_score_monotone(*f, ArchitecturePattern::Clean, (q + 1) as nat, INDICATOR_COUNT as nat);
                lemma_file_score_monotone(*f, ArchitecturePattern::Hexagonal, (q + 1) as nat, INDICATOR_COUNT as nat);
            }
            let (text, name) = indicator(q);
            if str_contains(lower.as_str(), text) {
                if q < 4 {
                    hexagonal = hexagonal + 15;
                } else if q < 8 {
                    clean = clean + 12;
                } else if q < 13 {
                    layered = layered + 10;
                } else {
                    mvc = mvc + 10;
                }
                let ghost hv = views(hits@);
                let ghost rv = views(reasons@);
                hits.push(f.id.clone());
                reasons.push(reason(name, &f.path));
                proof {
                    assert(views(hits@) =~= hv.push(f.id@));
                    assert(views(reasons@) =~= rv.push(reason_text(q as int, f.path@)));
                    assert(hits0 + file_hits(*f, (q + 1) as nat) =~= (hits0 + file_hits(*f, q as nat)).push(f.id@));
                    assert(reasons0 + file_reasons(*f, (q + 1) as nat) =~= (reasons0 + file_reasons(*f, q as nat)).push(
                        reason_text(q as int, f.path@),
                    ));
                }
            } else {
                proof {
                    assert(file_hits(*f, (q + 1) as nat) =~= file_hits(*f, q as nat));
                    assert(file_reasons(*f, (q + 1) as nat) =~= file_reasons(*f, q as nat));
                }
            }
            q = q + 1;
        }
        proof {
            assert(all_hits(files@.take(k + 1)) =~= all_hits(prefix) + file_hits(*f, INDICATOR_COUNT as nat));
            assert(all_reasons(files@.take(k + 1)) =~= all_reasons(prefix) + file_reasons(*f, INDICATOR_COUNT as nat));
        }
        k = k + 1;
    }
    proof {
        assert(files@.take(files@.len() as int) =~= files@);
    }
    let top = if mvc >= layered && mvc >= clean && mvc >= hexagonal {
        (ArchitecturePattern::Mvc, mvc)
    } else if layered >= clean && layered >= hexagonal {
        (ArchitecturePattern::Layered, layered)
    } else if clean >= hexagonal {
        (ArchitecturePattern::Clean, clean)
    } else {
        (ArchitecturePattern::Hexagonal, hexagonal)
    };
    if top.1 == 0 {
        return ArchitectureClassification { pattern: ArchitecturePattern::Unknown, score_tenths: 0, evidence: None };
    }
    let nodes = sorted_unique(&hits);
    proof {
        assert forall|y: Seq<char>| lists(hits@, y) <==> all_hits(files@).contains(y) by {
            if lists(hits@, y) {
                let i = choose|i: int| 0 <= i < hits@.len() && (#[trigger] hits@[i])@ == y;
                assert(views(hits@)[i] == y);
            }
            if all_hits(files@).contains(y) {
                let i = choose|i: int| 0 <= i < all_hits(files@).len() && all_hits(files@)[i] == y;
                assert(views(hits@)[i] == y);
                assert(hits@[i]@ == y);
            }
        }
    }
    ArchitectureClassification {
        pattern: top.0,
        score_tenths: top.1,
        evidence: Some(ArchitectureEvidence { nodes, edges: Vec::new(), reasons }),
    }
}

/// How many of `texts` occur in `path`.
pub open spec fn found_count(path: Seq<char>, texts: Seq<Seq<char>>) -> nat
    decreases texts.len(),
{
    if texts.len() == 0 {
        0
    } else {
        found_count(path, texts.drop_last()) + if has_substring(path, texts.last()) { 1nat } else { 0nat }
    }
}

/// Each directory indicator adds its pattern's weight to that pattern's
/// score and nothing to any other: in tenths, a file's clean score is 12
/// per clean indicator (`domain/`, `application/`, `infrastructure/`,
/// `presentation/`) in its lower-cased path, its hexagonal score 15 per
/// hexagonal indicator (`ports/`, `adapters/`, `core/ports/`, `hexagon/`),
/// its layered score 10 per layered indicator (`controllers/`, `services/`,
/// `repositories/`, `daos/`, `dto/`) and its MVC score 10 per MVC indicator
/// (`models/`, `views/`, `controllers/`, `routes/`).
pub proof fn lemma_indicator_weights(f: FileMeta)
    ensures
        file_score(f, ArchitecturePattern::Clean, INDICATOR_COUNT as nat) == 12 * found_count(
            lowercase(f.path@),
            seq!["domain/"@, "application/"@, "infrastructure/"@, "presentation/"@],
        ),
        file_score(f, ArchitecturePattern::Hexagonal, INDICATOR_COUNT as nat) == 15 * found_count(
            lowercase(f.path@),
            seq!["ports/"@, "adapters/"@, "core/ports/"@, "hexagon/"@],
        ),
        file_score(f, ArchitecturePattern::Layered, INDICATOR_COUNT as nat) == 10 * found_count(
            lowercase(f.path@),
            seq!["controllers/"@, "services/"@, "repositories/"@, "daos/"@, "dto/"@],
        ),
        file_score(f, ArchitecturePattern::Mvc, INDICATOR_COUNT as nat) == 10 * found_count(
            lowercase(f.path@),
            seq!["models/"@, "views/"@, "controllers/"@, "routes/"@],
        ),
{
    reveal_with_fuel(file_score, 18);
    reveal_with_fuel(found_count, 6);
    let l = lowercase(f.path@);
    let c = seq!["domain/"@, "application/"@, "infrastructure/"@, "presentation/"@];
    assert(c.drop_last().drop_last().drop_last().drop_last() =~= Seq::<Seq<char>>::empty());
    let h = seq!["ports/"@, "adapters/"@, "core/ports/"@, "hexagon/"@];
    assert(h.drop_last().drop_last().drop_last().drop_last() =~= Seq::<Seq<char>>::empty());
    let y = seq!["controllers/"@, "services/"@, "repositories/"@, "daos/"@, "dto/"@];
    assert(y.drop_last().drop_last().drop_last().drop_last().drop_last() =~= Seq::<Seq<char>>::empty());
    let m = seq!["models/"@, "views/"@, "controllers/"@, "routes/"@];
    assert(m.drop_last().drop_last().drop_last().drop_last() =~= Seq::<Seq<char>>::empty());
}

/// A project whose only indicator is one clean directory is classified
/// clean with score 12 (1.2); likewise for a single hexagonal (15), layered
/// (10) or MVC (10) directory.
pub proof fn lemma_single_indicator_project(f: FileMeta, t: Seq<char>)
    requires
        has_substring(lowercase(f.path@), t),
        forall|q: int| 0 <= q < INDICATOR_COUNT ==> (has_substring(lowercase(f.path@), #[trigger] indicator_text(q)) <==> indicator_text(q) == t),
    ensures
        (t == "domain/"@ || t == "application/"@ || t == "infrastructure/"@ || t == "presentation/"@)
            ==> best_pattern(seq![f]) == (ArchitecturePattern::Clean, 12nat),
{
    lemma_indicator_weights(f);
    reveal_with_fuel(found_count, 6);
    reveal_with_fuel(total_score, 2);
    assert(seq![f].drop_last() =~= Seq::<FileMeta>::empty());
    assert(seq![f].last() == f);
    reveal_strlit("ports/");
    reveal_strlit("adapters/");
    reveal_strlit("core/ports/");
    reveal_strlit("hexagon/");
    reveal_strlit("domain/");
    reveal_strlit("application/");
    reveal_strlit("infrastructure/");
    reveal_strlit("presentation/");
    reveal_strlit("controllers/");
    reveal_strlit("services/");
    reveal_strlit("repositories/");
    reveal_strlit("daos/");
    reveal_strlit("dto/");
    reveal_strlit("models/");
    reveal_strlit("views/");
    reveal_strlit("routes/");
    if t == "domain/"@ || t == "application/"@ || t == "infrastructure/"@ || t == "presentation/"@ {
        assert forall|q: int| 0 <= q < INDICATOR_COUNT implies (has_substring(lowercase(f.path@), #[trigger] indicator_text(q))
            <==> indicator_text(q) == t) by {}
        assert(has_substring(lowercase(f.path@), indicator_text(0)) == (indicator_text(0) == t));
        assert(has_substring(lowercase(f.path@), indicator_text(1)) == (indicator_text(1) == t));
        assert(has_substring(lowercase(f.path@), indicator_text(2)) == (indicator_text(2) == t));
        assert(has_substring(lowercase(f.path@), indicator_text(3)) == (indicator_text(3) == t));
        assert(has_substring(lowercase(f.path@), indicator_text(4)) == (indicator_text(4) == t));
        assert(has_substring(lowercase(f.path@), indicator_text(5)) == (indicator_text(5) == t));
        assert(has_substring(lowercase(f.path@), indicator_text(6)) == (indicator_text(6) == t));
        assert(has_substring(lowercase(f.path@), indicator_text(7)) == (indicator_text(7) == t));
        assert(has_substring(lowercase(f.path@), indicator_text(8)) == (indicator_text(8) == t));
        assert(has_substring(lowercase(f.path@), indicator_text(9)) == (indicator_text(9) == t));
        assert(has_substring(lowercase(f.path@), indicator_text(10)) == (indicator_text(10) == t));
        assert(has_substring(lowercase(f.path@), indicator_text(11)) == (indicator_text(11) == t));
        assert(has_substring(lowercase(f.path@), indicator_text(12)) == (indicator_text(12) == t));
        assert(has_substring(lowercase(f.path@), indicator_text(13)) == (indicator_text(13) == t));
        assert(has_substring(lowercase(f.path@), indicator_text(14)) == (indicator_text(14) == t));
        assert(has_substring(lowercase(f.path@), indicator_text(15)) == (indicator_text(15) == t));
        assert(has_substring(lowercase(f.path@), indicator_text(16)) == (indicator_text(16) == t));
        let l = lowercase(f.path@);
        assert("controllers/"@[0] != "application/"@[0]);
        assert("repositories/"@[0] != "presentation/"@[0]);
        assert("models/"@[0] != "domain/"@[0]);
        assert("routes/"@[0] != "domain/"@[0]);
        assert(found_count(l, seq!["domain/"@, "application/"@, "infrastructure/"@, "presentation/"@]) == 1);
        assert(found_count(l, seq!["ports/"@, "adapters/"@, "core/ports/"@, "hexagon/"@]) == 0);
        assert(found_count(l, seq!["controllers/"@, "services/"@, "repositories/"@, "daos/"@, "dto/"@]) == 0);
        assert(found_count(l, seq!["models/"@, "views/"@, "controllers/"@, "routes/"@]) == 0);
        assert(total_score(seq![f], ArchitecturePattern::Clean) == 12);
    }
}

proof fn lemma_file_hits_score(f: FileMeta, q: nat)
    ensures
        file_hits(f, q).len() == 0 <==> file_score(f, ArchitecturePattern::Mvc, q) + file_score(f, ArchitecturePattern::Layered, q)
            + file_score(f, ArchitecturePattern::Clean, q) + file_score(f, ArchitecturePattern::Hexagonal, q) == 0,
    decreases q,
{
    if q > 0 {
        lemma_file_hits_score(f, (q - 1) as nat);
    }
}

proof fn lemma_all_hits_score(files: Seq<FileMeta>)
    ensures
        all_hits(files).len() == 0 <==> total_score(files, ArchitecturePattern::Mvc) + total_score(
            files,
            ArchitecturePattern::Layered,
        ) + total_score(files, ArchitecturePattern::Clean) + total_score(files, ArchitecturePattern::Hexagonal) == 0,
    decreases files.len(),
{
    if files.len() > 0 {
        lemma_all_hits_score(files.drop_last());
        lemma_file_hits_score(files.last(), INDICATOR_COUNT as nat);
    }
}

/// A project is classified as unknown exactly when none of its paths holds
/// an indicator of any pattern.
pub proof fn lemma_unknown_iff_no_indicator(files: Seq<FileMeta>)
    ensures
        best_pattern(files).1 == 0 <==> all_hits(files).len() == 0,
{
    lemma_all_hits_score(files);
}

proof fn lemma_file_score_monotone(f: FileMeta, p: ArchitecturePattern, a: nat, b: nat)
    requires
        a <= b,
    ensures
        file_score(f, p, a) <= file_score(f, p, b),
    decreases b,
{
    if a < b {
        lemma_file_score_monotone(f, p, a, (b - 1) as nat);
    }
}

} // verus!
