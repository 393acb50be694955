use vstd::prelude::*;

use crate::token::{
    ident_text, is_close, is_ident, is_open, is_path_sep, is_punct, path_sep_at, token_is_close,
    token_is_open, token_is_punct, Delim, Token,
};

verus! {

/// A type path as the generator sees it: `a::b::C`, or `::a::C` with a leading separator.
pub struct TypePath {
    pub leading_colon: bool,
    pub segments: Vec<String>,
}

/// The mathematical value of a [`TypePath`].
pub struct PathModel {
    pub leading_colon: bool,
    pub segments: Seq<Seq<char>>,
}

impl View for TypePath {
    type V = PathModel;

    open spec fn view(&self) -> PathModel {
        PathModel { leading_colon: self.leading_colon, segments: self.segments.deep_view() }
    }
}

pub open spec fn paths_view(v: Seq<TypePath>) -> Seq<PathModel> {
    v.map_values(|p: TypePath| p@)
}

/// Why a configuration block was refused. Positions are token indices.
pub enum GeneratorError {
    DuplicateField { field: String, at: usize },
    UnknownField { field: String, at: usize },
    MissingField { field: String },
    InvalidRenderableType { at: usize },
    Syntax { at: usize },
}

/// The mathematical value of a [`GeneratorError`].
pub enum GenErrorModel {
    DuplicateField { field: Seq<char>, at: int },
    UnknownField { field: Seq<char>, at: int },
    MissingField { field: Seq<char> },
    InvalidRenderableType { at: int },
    Syntax { at: int },
}

impl View for GeneratorError {
    type V = GenErrorModel;

    open spec fn view(&self) -> GenErrorModel {
        match self {
            GeneratorError::DuplicateField { field, at } => GenErrorModel::DuplicateField {
                field: field@,
                at: *at as int,
            },
            GeneratorError::UnknownField { field, at } => GenErrorModel::UnknownField {
                field: field@,
                at: *at as int,
            },
            GeneratorError::MissingField { field } => GenErrorModel::MissingField { field: field@ },
            GeneratorError::InvalidRenderableType { at } => GenErrorModel::InvalidRenderableType {
                at: *at as int,
            },
            GeneratorError::Syntax { at } => GenErrorModel::Syntax { at: *at as int },
        }
    }
}

/// Further `::Ident` segments from `i` on, and the index just past the last of them.
pub open spec fn path_tail(t: Seq<Token>, i: int, end: int) -> (Seq<Seq<char>>, int)
    decreases end - i,
{
    if is_path_sep(t, i, end) && i + 2 < end && is_ident(t, i + 2) {
        let rest = path_tail(t, i + 3, end);
        (seq![ident_text(t, i + 2)] + rest.0, rest.1)
    } else {
        (Seq::empty(), i)
    }
}

/// The longest type path starting at `i` and ending by `end`, with the index just past it.
pub open spec fn path_at(t: Seq<Token>, i: int, end: int) -> Option<(PathModel, int)> {
    let lead = is_path_sep(t, i, end);
    let s = if lead {
        i + 2
    } else {
        i
    };
    if 0 <= s < end && is_ident(t, s) {
        let tail = path_tail(t, s + 1, end);
        Some(
            (
                PathModel { leading_colon: lead, segments: seq![ident_text(t, s)] + tail.0 },
                tail.1,
            ),
        )
    } else {
        None
    }
}

/// Where the list element starting at `i` stops: the first index at nesting depth zero that
/// holds a `,` or a closing delimiter, or `end` if there is none.
pub open spec fn element_end(t: Seq<Token>, i: int, end: int, depth: nat) -> int
    decreases end - i,
{
    if i >= end {
        end
    } else {
        match t[i] {
            Token::Punct { ch, joint } => if ch == ',' && depth == 0 {
                i
            } else {
                element_end(t, i + 1, end, depth)
            },
            Token::Close(_) => if depth == 0 {
                i
            } else {
                element_end(t, i + 1, end, (depth - 1) as nat)
            },
            Token::Open(_) => element_end(t, i + 1, end, depth + 1),
            _ => element_end(t, i + 1, end, depth),
        }
    }
}

/// The elements of a bracketed list whose `[` stands just before `q`, as index ranges,
/// and the index just past its `]`.
pub open spec fn list_items(t: Seq<Token>, q: int, end: int) -> Result<
    (Seq<(int, int)>, int),
    GenErrorModel,
>
    decreases end - q,
{
    if q >= end {
        Err(GenErrorModel::Syntax { at: end })
    } else if is_close(t, q, Delim::Bracket) {
        Ok((Seq::empty(), q + 1))
    } else {
        let r = element_end(t, q, end, 0);
        if r <= q {
            Err(GenErrorModel::Syntax { at: q })
        } else if r >= end {
            Err(GenErrorModel::Syntax { at: end })
        } else if is_punct(t, r, ',') {
            match list_items(t, r + 1, end) {
                Ok((rest, e)) => Ok((seq![(q, r)] + rest, e)),
                Err(x) => Err(x),
            }
        } else if is_close(t, r, Delim::Bracket) {
            Ok((seq![(q, r)], r + 1))
        } else {
            Err(GenErrorModel::Syntax { at: r })
        }
    }
}

/// Each element range read as a type path that fills it exactly; the first that is not
/// one is refused.
pub open spec fn list_paths(t: Seq<Token>, ranges: Seq<(int, int)>) -> Result<
    Seq<PathModel>,
    GenErrorModel,
>
    decreases ranges.len(),
{
    if ranges.len() == 0 {
        Ok(Seq::empty())
    } else {
        match list_paths(t, ranges.drop_last()) {
            Err(x) => Err(x),
            Ok(ps) => {
                let (q, r) = ranges.last();
                match path_at(t, q, r) {
                    Some((p, e)) => if e == r {
                        Ok(ps.push(p))
                    } else {
                        Err(GenErrorModel::InvalidRenderableType { at: q })
                    },
                    None => Err(GenErrorModel::InvalidRenderableType { at: q }),
                }
            },
        }
    }
}

/// A configuration block read successfully.
pub struct GeneratorConfig {
    pub name: String,
    pub renderables: Vec<TypePath>,
    pub camera: TypePath,
}

/// The mathematical value of a [`GeneratorConfig`].
pub struct ConfigModel {
    pub name: Seq<char>,
    pub renderables: Seq<PathModel>,
    pub camera: PathModel,
}

impl View for GeneratorConfig {
    type V = ConfigModel;

    open spec fn view(&self) -> ConfigModel {
        ConfigModel {
            name: self.name@,
            renderables: paths_view(self.renderables@),
            camera: self.camera@,
        }
    }
}

/// The fields read so far while walking a block.
pub struct SlotsModel {
    pub name: Option<Seq<char>>,
    pub renderables: Option<Seq<PathModel>>,
    pub camera: Option<PathModel>,
}

pub open spec fn no_slots() -> SlotsModel {
    SlotsModel { name: None, renderables: None, camera: None }
}

pub open spec fn name_key() -> Seq<char> {
    seq!['n', 'a', 'm', 'e']
}

pub open spec fn renderables_key() -> Seq<char> {
    seq!['r', 'e', 'n', 'd', 'e', 'r', 'a', 'b', 'l', 'e', 's']
}

pub open spec fn camera_key() -> Seq<char> {
    seq!['c', 'a', 'm', 'e', 'r', 'a']
}

/// The value of a `renderables` field starting at `v`: a bracketed list of type paths.
pub open spec fn renderables_at(t: Seq<Token>, v: int, end: int) -> Result<
    (Seq<PathModel>, int),
    GenErrorModel,
> {
    if !(v < end && is_open(t, v, Delim::Bracket)) {
        Err(GenErrorModel::Syntax { at: v })
    } else {
        match list_items(t, v + 1, end) {
            Err(x) => Err(x),
            Ok((ranges, e)) => match list_paths(t, ranges) {
                Ok(ps) => Ok((ps, e)),
                Err(x) => Err(x),
            },
        }
    }
}

/// One `key: value` entry starting at `pos`: the fields after it and the index past it.
pub open spec fn entry(t: Seq<Token>, pos: int, end: int, st: SlotsModel) -> Result<
    (SlotsModel, int),
    GenErrorModel,
> {
    if !is_ident(t, pos) {
        Err(GenErrorModel::Syntax { at: pos })
    } else if !(pos + 1 < end && is_punct(t, pos + 1, ':')) {
        Err(GenErrorModel::Syntax { at: pos + 1 })
    } else {
        let key = ident_text(t, pos);
        let v = pos + 2;
        if key == name_key() {
            if st.name is Some {
                Err(GenErrorModel::DuplicateField { field: key, at: pos })
            } else if v < end && is_ident(t, v) {
                Ok((SlotsModel { name: Some(ident_text(t, v)), ..st }, v + 1))
            } else {
                Err(GenErrorModel::Syntax { at: v })
            }
        } else if key == renderables_key() {
            if st.renderables is Some {
                Err(GenErrorModel::DuplicateField { field: key, at: pos })
            } else {
                match renderables_at(t, v, end) {
                    Ok((ps, e)) => Ok((SlotsModel { renderables: Some(ps), ..st }, e)),
                    Err(x) => Err(x),
                }
            }
        } else if key == camera_key() {
            if st.camera is Some {
                Err(GenErrorModel::DuplicateField { field: key, at: pos })
            } else {
                match path_at(t, v, end) {
                    Some((p, e)) => Ok((SlotsModel { camera: Some(p), ..st }, e)),
                    None => Err(GenErrorModel::Syntax { at: v }),
                }
            }
        } else {
            Err(GenErrorModel::UnknownField { field: key, at: pos })
        }
    }
}

/// Where the walk goes on after an entry that stopped at `p`: past an optional `,`.
pub open spec fn after_comma(t: Seq<Token>, p: int, end: int) -> int {
    if p < end && is_punct(t, p, ',') {
        p + 1
    } else {
        p
    }
}

/// The entries from `pos` to `end`, in order, each followed by an optional `,`.
pub open spec fn entries(t: Seq<Token>, pos: int, end: int, st: SlotsModel) -> Result<
    SlotsModel,
    GenErrorModel,
>
    decreases end - pos,
{
    if pos >= end {
        Ok(st)
    } else {
        match entry(t, pos, end, st) {
            Err(x) => Err(x),
            Ok((st2, p)) => {
                let next = after_comma(t, p, end);
                if pos < next <= end {
                    entries(t, next, end, st2)
                } else {
                    Ok(st2)
                }
            },
        }
    }
}

/// What a whole configuration block, `{` entries `}`, reads as.
pub open spec fn block(t: Seq<Token>) -> Result<ConfigModel, GenErrorModel> {
    if !(t.len() >= 2 && is_open(t, 0, Delim::Brace) && is_close(t, t.len() - 1, Delim::Brace)) {
        Err(GenErrorModel::Syntax { at: 0 })
    } else {
        match entries(t, 1, t.len() - 1, no_slots()) {
            Err(x) => Err(x),
            Ok(st) => match (st.name, st.renderables, st.camera) {
                (Some(n), Some(rs), Some(c)) => Ok(
                    ConfigModel { name: n, renderables: rs, camera: c },
                ),
                (None, _, _) => Err(GenErrorModel::MissingField { field: name_key() }),
                (_, None, _) => Err(GenErrorModel::MissingField { field: renderables_key() }),
                (_, _, None) => Err(GenErrorModel::MissingField { field: camera_key() }),
            },
        }
    }
}

pub open spec fn spans_view(v: Seq<(usize, usize)>) -> Seq<(int, int)> {
    v.map_values(|p: (usize, usize)| (p.0 as int, p.1 as int))
}

proof fn lemma_path_tail_bounds(t: Seq<Token>, i: int, end: int)
    requires
        0 <= i <= end,
    ensures
        i <= path_tail(t, i, end).1 <= end,
    decreases end - i,
{
    if is_path_sep(t, i, end) && i + 2 < end && is_ident(t, i + 2) {
        lemma_path_tail_bounds(t, i + 3, end);
    }
}

proof fn lemma_element_end_bounds(t: Seq<Token>, i: int, end: int, depth: nat)
    requires
        0 <= i <= end <= t.len(),
    ensures
        i <= element_end(t, i, end, depth) <= end,
    decreases end - i,
{
    if i < end {
        match t[i] {
            Token::Punct { ch, joint } => if !(ch == ',' && depth == 0) {
                lemma_element_end_bounds(t, i + 1, end, depth);
            },
            Token::Close(_) => if depth != 0 {
                lemma_element_end_bounds(t, i + 1, end, (depth - 1) as nat);
            },
            Token::Open(_) => lemma_element_end_bounds(t, i + 1, end, depth + 1),
            _ => lemma_element_end_bounds(t, i + 1, end, depth),
        }
    }
}

proof fn lemma_list_items_bounds(t: Seq<Token>, q: int, end: int)
    requires
        0 <= q <= end <= t.len(),
    ensures
        list_items(t, q, end) matches Ok((rs, e)) ==> q < e <= end,
    decreases end - q,
{
    if q < end && !is_close(t, q, Delim::Bracket) {
        let r = element_end(t, q, end, 0);
        lemma_element_end_bounds(t, q, end, 0);
        if q < r < end && is_punct(t, r, ',') {
            lemma_list_items_bounds(t, r + 1, end);
        }
    }
}

proof fn lemma_list_paths_err_prefix(t: Seq<Token>, rs: Seq<(int, int)>, k: int)
    requires
        0 <= k <= rs.len(),
        list_paths(t, rs.take(k)) is Err,
    ensures
        list_paths(t, rs) == list_paths(t, rs.take(k)),
    decreases rs.len() - k,
{
    if k < rs.len() {
        assert(rs.take(k + 1).drop_last() =~= rs.take(k));
        lemma_list_paths_err_prefix(t, rs, k + 1);
    } else {
        assert(rs.take(k) =~= rs);
    }
}

proof fn lemma_list_items_spans_bounded(t: Seq<Token>, q: int, end: int, j: int)
    requires
        0 <= q <= end <= t.len(),
        list_items(t, q, end) matches Ok((rs, e)) && 0 <= j < rs.len(),
    ensures
        list_items(t, q, end) matches Ok((rs, e)) && q <= rs[j].0 < rs[j].1 < end,
    decreases end - q,
{
    let r = element_end(t, q, end, 0);
    lemma_element_end_bounds(t, q, end, 0);
    if j > 0 {
        lemma_list_items_spans_bounded(t, r + 1, end, j - 1);
    }
}

fn ident_at(t: &Vec<Token>, i: usize, end: usize) -> (r: Option<String>)
    requires
        end <= t@.len(),
    ensures
        r is Some <==> (i < end && is_ident(t@, i as int)),
        r matches Some(s) ==> s@ == ident_text(t@, i as int),
{
    if i < end {
        match &t[i] {
            Token::Ident(s) => Some(s.clone()),
            _ => None,
        }
    } else {
        None
    }
}

/// Reads the longest type path that starts at `i` and ends by `end`.
pub fn parse_path(t: &Vec<Token>, i: usize, end: usize) -> (r: Option<(TypePath, usize)>)
    requires
        end <= t@.len(),
    ensures
        match r {
            None => path_at(t@, i as int, end as int) is None,
            Some((p, e)) => path_at(t@, i as int, end as int) == Some((p@, e as int)),
        },
{
    let lead = path_sep_at(t, i, end);
    let s: usize = if lead {
        i + 2
    } else {
        i
    };
    let first = match ident_at(t, s, end) {
        Some(f) => f,
        None => {
            return None;
        },
    };
    let ghost first_view = first@;
    let mut segments: Vec<String> = Vec::new();
    segments.push(first);
    proof {
        assert(segments.deep_view() =~= seq![first_view]);
    }
    let mut k: usize = s + 1;
    while path_sep_at(t, k, end) && k + 2 < end && ident_at(t, k + 2, end).is_some()
        invariant
            s < k <= end <= t@.len(),
            segments.deep_view() + path_tail(t@, k as int, end as int).0 == seq![first_view]
                + path_tail(t@, (s + 1) as int, end as int).0,
            path_tail(t@, k as int, end as int).1 == path_tail(t@, (s + 1) as int, end as int).1,
        decreases end - k,
    {
        let seg = match ident_at(t, k + 2, end) {
            Some(g) => g,
            None => {
                return None;
            },
        };
        let ghost before = segments.deep_view();
        segments.push(seg);
        proof {
            assert(segments.deep_view() =~= before.push(seg@));
            assert(path_tail(t@, k as int, end as int).0 =~= seq![seg@] + path_tail(
                t@,
                k + 3,
                end as int,
            ).0);
            assert(segments.deep_view() + path_tail(t@, k + 3, end as int).0 =~= before
                + path_tail(t@, k as int, end as int).0);
        }
        k = k + 3;
    }
    proof {
        assert(path_tail(t@, k as int, end as int).0 =~= Seq::<Seq<char>>::empty());
        assert(segments.deep_view() =~= segments.deep_view() + path_tail(
            t@,
            k as int,
            end as int,
        ).0);
    }
    Some((TypePath { leading_colon: lead, segments }, k))
}

fn scan_element(t: &Vec<Token>, i: usize, end: usize) -> (r: usize)
    requires
        i <= end <= t@.len(),
    ensures
        r as int == element_end(t@, i as int, end as int, 0),
{
    let mut k: usize = i;
    let mut depth: usize = 0;
    while k < end
        invariant
            i <= k <= end <= t@.len(),
            depth <= k - i,
            element_end(t@, k as int, end as int, depth as nat) == element_end(
                t@,
                i as int,
                end as int,
                0,
            ),
        decreases end - k,
    {
        match &t[k] {
            Token::Punct { ch, joint: _ } => {
                if *ch == ',' && depth == 0 {
                    return k;
                }
            },
            Token::Close(_) => {
                if depth == 0 {
                    return k;
                }
                depth = depth - 1;
            },
            Token::Open(_) => {
                depth = depth + 1;
            },
            _ => {},
        }
        k = k + 1;
    }
    end
}

/// Splits the bracketed list whose `[` stands just before `q` into element ranges.
fn scan_list(t: &Vec<Token>, q: usize, end: usize) -> (r: Result<
    (Vec<(usize, usize)>, usize),
    GeneratorError,
>)
    requires
        q <= end <= t@.len(),
    ensures
        match r {
            Ok((rs, e)) => list_items(t@, q as int, end as int) == Ok::<_, GenErrorModel>(
                (spans_view(rs@), e as int),
            ),
            Err(x) => list_items(t@, q as int, end as int) == Err::<(Seq<(int, int)>, int), _>(
                x@,
            ),
        },
{
    let mut spans: Vec<(usize, usize)> = Vec::new();
    let mut k: usize = q;
    loop
        invariant
            q <= k <= end <= t@.len(),
            match list_items(t@, k as int, end as int) {
                Ok((rest, e)) => list_items(t@, q as int, end as int) == Ok::<_, GenErrorModel>(
                    (spans_view(spans@) + rest, e),
                ),
                Err(x) => list_items(t@, q as int, end as int) == Err::<
                    (Seq<(int, int)>, int),
                    _,
                >(x),
            },
        decreases end - k,
    {
        if k >= end {
            return Err(GeneratorError::Syntax { at: end });
        }
        if token_is_close(&t[k], Delim::Bracket) {
            proof {
                assert(spans_view(spans@) + Seq::<(int, int)>::empty() =~= spans_view(spans@));
            }
            return Ok((spans, k + 1));
        }
        let r = scan_element(t, k, end);
        proof {
            lemma_element_end_bounds(t@, k as int, end as int, 0);
        }
        if r <= k {
            return Err(GeneratorError::Syntax { at: k });
        }
        if r >= end {
            return Err(GeneratorError::Syntax { at: end });
        }
        let ghost before = spans@;
        if token_is_punct(&t[r], ',') {
            spans.push((k, r));
            proof {
                assert(spans_view(spans@) =~= spans_view(before) + seq![(k as int, r as int)]);
                match list_items(t@, r + 1, end as int) {
                    Ok((rest, e)) => {
                        assert(spans_view(spans@) + rest =~= spans_view(before) + (seq![
                            (k as int, r as int),
                        ] + rest));
                    },
                    Err(x) => {},
                }
            }
            k = r + 1;
        } else if token_is_close(&t[r], Delim::Bracket) {
            spans.push((k, r));
            proof {
                assert(spans_view(spans@) =~= spans_view(before) + seq![(k as int, r as int)]);
            }
            return Ok((spans, r + 1));
        } else {
            return Err(GeneratorError::Syntax { at: r });
        }
    }
}

/// Reads each element range as a type path that fills it exactly.
fn spans_to_paths(t: &Vec<Token>, spans: &Vec<(usize, usize)>) -> (r: Result<
    Vec<TypePath>,
    GeneratorError,
>)
    requires
        forall|j: int| 0 <= j < spans@.len() ==> #[trigger] spans@[j].1 <= t@.len(),
    ensures
        match r {
            Ok(ps) => list_paths(t@, spans_view(spans@)) == Ok::<_, GenErrorModel>(
                paths_view(ps@),
            ),
            Err(x) => list_paths(t@, spans_view(spans@)) == Err::<Seq<PathModel>, _>(x@),
        },
{
    let mut paths: Vec<TypePath> = Vec::new();
    let mut j: usize = 0;
    proof {
        assert(spans_view(spans@).take(0) =~= Seq::<(int, int)>::empty());
        assert(paths_view(paths@) =~= Seq::<PathModel>::empty());
    }
    while j < spans.len()
        invariant
            j <= spans@.len(),
            forall|m: int| 0 <= m < spans@.len() ==> #[trigger] spans@[m].1 <= t@.len(),
            list_paths(t@, spans_view(spans@).take(j as int)) == Ok::<_, GenErrorModel>(
                paths_view(paths@),
            ),
        decreases spans@.len() - j,
    {
        let (q, e) = spans[j];
        proof {
            assert(spans_view(spans@).take(j + 1).drop_last() =~= spans_view(spans@).take(
                j as int,
            ));
            assert(spans_view(spans@).take(j + 1).last() == (q as int, e as int));
        }
        match parse_path(t, q, e) {
            Some((p, stop)) => {
                if stop != e {
                    proof {
                        lemma_list_paths_err_prefix(t@, spans_view(spans@), j + 1);
                    }
                    return Err(GeneratorError::InvalidRenderableType { at: q });
                }
                let ghost before = paths@;
                paths.push(p);
                proof {
                    assert(paths_view(paths@) =~= paths_view(before).push(paths@.last()@));
                }
            },
            None => {
                proof {
                    lemma_list_paths_err_prefix(t@, spans_view(spans@), j + 1);
                }
                return Err(GeneratorError::InvalidRenderableType { at: q });
            },
        }
        j = j + 1;
    }
    proof {
        assert(spans_view(spans@).take(j as int) =~= spans_view(spans@));
    }
    Ok(paths)
}

struct Slots {
    name: Option<String>,
    renderables: Option<Vec<TypePath>>,
    camera: Option<TypePath>,
}

impl View for Slots {
    type V = SlotsModel;

    closed spec fn view(&self) -> SlotsModel {
        SlotsModel {
            name: match self.name {
                Some(n) => Some(n@),
                None => None,
            },
            renderables: match self.renderables {
                Some(rs) => Some(paths_view(rs@)),
                None => None,
            },
            camera: match self.camera {
                Some(c) => Some(c@),
                None => None,
            },
        }
    }
}

proof fn lemma_path_at_bounds(t: Seq<Token>, i: int, end: int)
    requires
        0 <= i <= end,
    ensures
        path_at(t, i, end) matches Some((p, e)) ==> i < e <= end,
{
    let s = if is_path_sep(t, i, end) {
        i + 2
    } else {
        i
    };
    if 0 <= s < end && is_ident(t, s) {
        lemma_path_tail_bounds(t, s + 1, end);
    }
}

/// An entry that reads successfully ends after where it began, and no later than `end`.
pub proof fn lemma_entry_advances(t: Seq<Token>, pos: int, end: int, st: SlotsModel)
    requires
        0 <= pos < end <= t.len(),
    ensures
        entry(t, pos, end, st) matches Ok((st2, p)) ==> pos < p <= end,
{
    if pos + 2 <= end {
        lemma_path_at_bounds(t, pos + 2, end);
        if pos + 2 < end {
            lemma_list_items_bounds(t, pos + 3, end);
        }
    }
}

fn key_is(key: &String, lit: &str) -> (r: bool)
    ensures
        r == (key@ == lit@),
{
    *key == String::from_str(lit)
}

/// Reads one `key: value` entry starting at `pos` into `slots`.
fn parse_entry(t: &Vec<Token>, pos: usize, end: usize, slots: &mut Slots) -> (r: Result<
    usize,
    GeneratorError,
>)
    requires
        pos < end <= t@.len(),
    ensures
        match r {
            Ok(p) => entry(t@, pos as int, end as int, old(slots)@) == Ok::<_, GenErrorModel>(
                (final(slots)@, p as int),
            ),
            Err(x) => entry(t@, pos as int, end as int, old(slots)@) == Err::<
                (SlotsModel, int),
                _,
            >(x@),
        },
{
    proof {
        reveal_strlit("name");
        reveal_strlit("renderables");
        reveal_strlit("camera");
        assert("name"@ =~= name_key());
        assert("renderables"@ =~= renderables_key());
        assert("camera"@ =~= camera_key());
    }
    let key = match ident_at(t, pos, end) {
        Some(k) => k,
        None => {
            return Err(GeneratorError::Syntax { at: pos });
        },
    };
    if !(pos + 1 < end && token_is_punct(&t[pos + 1], ':')) {
        return Err(GeneratorError::Syntax { at: pos + 1 });
    }
    let v = pos + 2;
    if key_is(&key, "name") {
        if slots.name.is_some() {
            return Err(GeneratorError::DuplicateField { field: key, at: pos });
        }
        match ident_at(t, v, end) {
            Some(n) => {
                slots.name = Some(n);
                Ok(v + 1)
            },
            None => Err(GeneratorError::Syntax { at: v }),
        }
    } else if key_is(&key, "renderables") {
        if slots.renderables.is_some() {
            return Err(GeneratorError::DuplicateField { field: key, at: pos });
        }
        if !(v < end && token_is_open(&t[v], Delim::Bracket)) {
            return Err(GeneratorError::Syntax { at: v });
        }
        let (spans, e) = match scan_list(t, v + 1, end) {
            Ok(found) => found,
            Err(x) => {
                return Err(x);
            },
        };
        proof {
            assert forall|j: int| 0 <= j < spans@.len() implies #[trigger] spans@[j].1 <= t@.len() by {
                assert(spans_view(spans@)[j].1 == spans@[j].1 as int);
                lemma_list_items_spans_bounded(t@, v + 1, end as int, j);
            }
        }
        match spans_to_paths(t, &spans) {
            Ok(ps) => {
                slots.renderables = Some(ps);
                Ok(e)
            },
            Err(x) => Err(x),
        }
    } else if key_is(&key, "camera") {
        if slots.camera.is_some() {
            return Err(GeneratorError::DuplicateField { field: key, at: pos });
        }
        match parse_path(t, v, end) {
            Some((p, e)) => {
                slots.camera = Some(p);
                Ok(e)
            },
            None => Err(GeneratorError::Syntax { at: v }),
        }
    } else {
        Err(GeneratorError::UnknownField { field: key, at: pos })
    }
}

/// Reads a configuration block `{ name: .., renderables: [..], camera: .. }`.
pub fn parse_config(t: &Vec<Token>) -> (r: Result<GeneratorConfig, GeneratorError>)
    ensures
        match r {
            Ok(c) => block(t@) == Ok::<_, GenErrorModel>(c@),
            Err(x) => block(t@) == Err::<ConfigModel, _>(x@),
        },
{
    let n = t.len();
    if !(n >= 2 && token_is_open(&t[0], Delim::Brace) && token_is_close(&t[n - 1], Delim::Brace)) {
        return Err(GeneratorError::Syntax { at: 0 });
    }
    let end = n - 1;
    let mut slots = Slots { name: None, renderables: None, camera: None };
    proof {
        assert(slots@ == no_slots());
    }
    let mut pos: usize = 1;
    while pos < end
        invariant
            1 <= pos <= end,
            end == t@.len() - 1,
            is_open(t@, 0, Delim::Brace),
            is_close(t@, end as int, Delim::Brace),
            entries(t@, pos as int, end as int, slots@) == entries(
                t@,
                1,
                end as int,
                no_slots(),
            ),
        decreases end - pos,
    {
        proof {
            lemma_entry_advances(t@, pos as int, end as int, slots@);
        }
        let ghost before = slots@;
        let p = match parse_entry(t, pos, end, &mut slots) {
            Ok(p) => p,
            Err(x) => {
                assert(entries(t@, pos as int, end as int, before) == Err::<SlotsModel, _>(x@));
                return Err(x);
            },
        };
        pos = if p < end && token_is_punct(&t[p], ',') {
            p + 1
        } else {
            p
        };
    }
    proof {
        reveal_strlit("name");
        reveal_strlit("renderables");
        reveal_strlit("camera");
        assert("name"@ =~= name_key());
        assert("renderables"@ =~= renderables_key());
        assert("camera"@ =~= camera_key());
    }
    let Slots { name, renderables, camera } = slots;
    match (name, renderables, camera) {
        (Some(name), Some(renderables), Some(camera)) => Ok(
            GeneratorConfig { name, renderables, camera },
        ),
        (None, _, _) => Err(GeneratorError::MissingField { field: String::from_str("name") }),
        (_, None, _) => Err(GeneratorError::MissingField { field: String::from_str("renderables") }),
        (_, _, None) => Err(GeneratorError::MissingField { field: String::from_str("camera") }),
    }
}

} // verus!
