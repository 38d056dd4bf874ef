//! The format template compiler: parsing a template string into an ordered
//! sequence of typed format units.

use vstd::prelude::*;

verus! {

/// The closed, case-sensitive set of fields a template placeholder can name.
#[derive(Clone, Copy, Debug, PartialEq, Eq, Structural)]
pub enum FieldKind {
    /// The request's HTTP method token.
    Method,
    /// The request's full URL.
    Uri,
    /// The response's status, or a sentinel when absent.
    Status,
    /// Elapsed time between request start and response completion.
    ResponseTimeMs,
    /// The client's socket address.
    RemoteAddr,
    /// The request's arrival timestamp.
    RequestTime,
}

/// One atom of a compiled template: literal text or a field placeholder.
#[derive(Debug, PartialEq, Eq)]
pub enum FormatUnit {
    /// Fixed text, emitted verbatim.
    Literal(String),
    /// A dynamic field, emitted from the per-request context.
    FieldPlaceholder(FieldKind),
}

/// The mathematical value of one format unit.
pub enum UnitView {
    /// Fixed text, as a character sequence.
    Literal(Seq<char>),
    /// A dynamic field.
    FieldPlaceholder(FieldKind),
}

impl View for FormatUnit {
    type V = UnitView;

    open spec fn view(&self) -> UnitView {
        match self {
            FormatUnit::Literal(s) => UnitView::Literal(s@),
            FormatUnit::FieldPlaceholder(k) => UnitView::FieldPlaceholder(*k),
        }
    }
}

/// A compiled template: an ordered sequence of format units, immutable once
/// built; rendering order is insertion order.
#[derive(Debug, PartialEq, Eq)]
pub struct Format(pub Vec<FormatUnit>);

/// The mathematical value of a sequence of format units.
pub open spec fn units_view(us: Seq<FormatUnit>) -> Seq<UnitView> {
    us.map_values(|u: FormatUnit| u@)
}

impl View for Format {
    type V = Seq<UnitView>;

    open spec fn view(&self) -> Seq<UnitView> {
        units_view(self.0@)
    }
}

impl Clone for FormatUnit {
    /// A copy with the same value.
    fn clone(&self) -> (r: Self)
        ensures
            r == self,
    {
        match self {
            FormatUnit::Literal(s) => FormatUnit::Literal(s.clone()),
            FormatUnit::FieldPlaceholder(k) => FormatUnit::FieldPlaceholder(*k),
        }
    }
}

impl Clone for Format {
    /// A compiled format is cheaply duplicable: the copy has the same units.
    fn clone(&self) -> (r: Self)
        ensures
            r@ == self@,
    {
        let mut units: Vec<FormatUnit> = Vec::new();
        let mut idx: usize = 0;
        while idx < self.0.len()
            invariant
                idx <= self.0.len(),
                units@ == self.0@.subrange(0, idx as int),
            decreases self.0.len() - idx,
        {
            units.push(self.0[idx].clone());
            proof {
                assert(units@ =~= self.0@.subrange(0, idx + 1));
            }
            idx = idx + 1;
        }
        proof {
            assert(self.0@.subrange(0, self.0@.len() as int) =~= self.0@);
        }
        Format(units)
    }
}

/// The unit sequence of the default format, the compiled form of the template
/// `{method} {uri} -> {status} ({response-time} ms)`.
pub open spec fn default_units() -> Seq<UnitView> {
    seq![
        UnitView::FieldPlaceholder(FieldKind::Method),
        UnitView::Literal(" "@),
        UnitView::FieldPlaceholder(FieldKind::Uri),
        UnitView::Literal(" -> "@),
        UnitView::FieldPlaceholder(FieldKind::Status),
        UnitView::Literal(" ("@),
        UnitView::FieldPlaceholder(FieldKind::ResponseTimeMs),
        UnitView::Literal(" ms)"@),
    ]
}

impl Default for Format {
    /// The default format, built directly, without invoking the parser.
    fn default() -> (r: Format)
        ensures
            r@ == default_units(),
    {
        let mut units: Vec<FormatUnit> = Vec::new();
        units.push(FormatUnit::FieldPlaceholder(FieldKind::Method));
        units.push(FormatUnit::Literal(" ".to_owned()));
        units.push(FormatUnit::FieldPlaceholder(FieldKind::Uri));
        units.push(FormatUnit::Literal(" -> ".to_owned()));
        units.push(FormatUnit::FieldPlaceholder(FieldKind::Status));
        units.push(FormatUnit::Literal(" (".to_owned()));
        units.push(FormatUnit::FieldPlaceholder(FieldKind::ResponseTimeMs));
        units.push(FormatUnit::Literal(" ms)".to_owned()));
        proof {
            assert(units_view(units@) =~= default_units());
        }
        Format(units)
    }
}

/// A template that cannot be compiled. Both variants are fatal: there is no
/// partial compiled result.
#[derive(Debug, PartialEq, Eq)]
pub enum FormatError {
    /// A `{` with no matching `}` before end of input; carries the position
    /// (in characters) of the opening brace.
    UnterminatedPlaceholder(usize),
    /// A `{...}`-delimited token outside the recognized set; carries the
    /// offending token text.
    UnknownFieldToken(String),
}

/// The mathematical value of a compilation error.
pub enum ErrorView {
    /// Position of the opening brace with no matching close.
    UnterminatedPlaceholder(int),
    /// The unrecognized token between the braces.
    UnknownFieldToken(Seq<char>),
}

impl View for FormatError {
    type V = ErrorView;

    open spec fn view(&self) -> ErrorView {
        match self {
            FormatError::UnterminatedPlaceholder(p) => ErrorView::UnterminatedPlaceholder(*p as int),
            FormatError::UnknownFieldToken(t) => ErrorView::UnknownFieldToken(t@),
        }
    }
}

/// The field kind a placeholder token names, if any: the recognized set is
/// closed and matched case-sensitively.
pub open spec fn token_kind(tok: Seq<char>) -> Option<FieldKind> {
    if tok == "method"@ {
        Some(FieldKind::Method)
    } else if tok == "uri"@ {
        Some(FieldKind::Uri)
    } else if tok == "status"@ {
        Some(FieldKind::Status)
    } else if tok == "response-time"@ {
        Some(FieldKind::ResponseTimeMs)
    } else if tok == "remote-addr"@ {
        Some(FieldKind::RemoteAddr)
    } else if tok == "request-time"@ {
        Some(FieldKind::RequestTime)
    } else {
        None
    }
}

/// The position of the first occurrence of `c` in `s` at or after `i`.
pub open spec fn find_char(s: Seq<char>, c: char, i: int) -> Option<int>
    decreases s.len() - i,
{
    if i < 0 || i >= s.len() {
        None
    } else if s[i] == c {
        Some(i)
    } else {
        find_char(s, c, i + 1)
    }
}

/// Where `find_char` finds `c`, that is its first occurrence at or after `i`.
pub proof fn lemma_find_char_some(s: Seq<char>, c: char, i: int)
    ensures
        find_char(s, c, i) matches Some(j) ==> i <= j < s.len() && s[j] == c && (forall|m: int|
            i <= m < j ==> s[m] != c),
    decreases s.len() - i,
{
    if !(i < 0 || i >= s.len()) && s[i] != c {
        lemma_find_char_some(s, c, i + 1);
    }
}

/// What compiling the suffix of `s` that starts at `i` yields: scan to the
/// next `{`; everything before it is one literal unit (skipped when empty);
/// the token up to the matching `}` must name a field; then the rest.
pub open spec fn spec_compile_from(s: Seq<char>, i: int) -> Result<Seq<UnitView>, ErrorView>
    decreases s.len() - i,
        via spec_compile_from_decreases
{
    match find_char(s, '{', i) {
        None => {
            if i >= s.len() {
                Ok(Seq::<UnitView>::empty())
            } else {
                Ok(seq![UnitView::Literal(s.subrange(i, s.len() as int))])
            }
        },
        Some(j) => {
            let lit = if j > i {
                seq![UnitView::Literal(s.subrange(i, j))]
            } else {
                Seq::<UnitView>::empty()
            };
            match find_char(s, '}', j + 1) {
                None => Err(ErrorView::UnterminatedPlaceholder(j)),
                Some(k) => {
                    let tok = s.subrange(j + 1, k);
                    match token_kind(tok) {
                        None => Err(ErrorView::UnknownFieldToken(tok)),
                        Some(kind) => match spec_compile_from(s, k + 1) {
                            Ok(rest) => Ok(lit + seq![UnitView::FieldPlaceholder(kind)] + rest),
                            Err(e) => Err(e),
                        },
                    }
                },
            }
        },
    }
}

#[via_fn]
proof fn spec_compile_from_decreases(s: Seq<char>, i: int) {
    lemma_find_char_some(s, '{', i);
    if let Some(j) = find_char(s, '{', i) {
        lemma_find_char_some(s, '}', j + 1);
    }
}

/// What compiling a whole template yields.
pub open spec fn spec_compile(s: Seq<char>) -> Result<Seq<UnitView>, ErrorView> {
    spec_compile_from(s, 0)
}

/// The mathematical value of a compilation result.
pub open spec fn compiled_view(r: Result<Format, FormatError>) -> Result<Seq<UnitView>, ErrorView> {
    match r {
        Ok(f) => Ok(f@),
        Err(e) => Err(e@),
    }
}

/// A compilation result with `pre` prepended to the unit sequence of a
/// successful rest; an error stands as it is.
pub open spec fn prepend_units(pre: Seq<UnitView>, rest: Result<Seq<UnitView>, ErrorView>) -> Result<
    Seq<UnitView>,
    ErrorView,
> {
    match rest {
        Ok(r) => Ok(pre + r),
        Err(e) => Err(e),
    }
}

proof fn lemma_units_view_push(us: Seq<FormatUnit>, u: FormatUnit)
    ensures
        units_view(us.push(u)) == units_view(us).push(u@),
{
    assert(units_view(us.push(u)) =~= units_view(us).push(u@));
}

/// The position of the first occurrence of `c` at or after `start`, scanning
/// character by character.
fn find_from(s: &str, c: char, start: usize) -> (r: Option<usize>)
    requires
        start <= s@.len(),
    ensures
        match r {
            Some(j) => find_char(s@, c, start as int) == Some(j as int) && start <= j < s@.len()
                && s@[j as int] == c,
            None => find_char(s@, c, start as int) is None,
        },
{
    let n: usize = s.unicode_len();
    let mut j: usize = start;
    while j < n
        invariant
            n == s@.len(),
            start <= j <= n,
            find_char(s@, c, start as int) == find_char(s@, c, j as int),
        decreases n - j,
    {
        if s.get_char(j) == c {
            return Some(j);
        }
        j = j + 1;
    }
    None
}

/// Character-for-character equality of two string slices.
fn str_eq(a: &str, b: &str) -> (r: bool)
    ensures
        r == (a@ == b@),
{
    let alen: usize = a.unicode_len();
    let blen: usize = b.unicode_len();
    if alen != blen {
        return false;
    }
    let mut i: usize = 0;
    while i < alen
        invariant
            alen == a@.len(),
            blen == b@.len(),
            alen == blen,
            0 <= i <= alen,
            forall|m: int| 0 <= m < i ==> a@[m] == b@[m],
        decreases alen - i,
    {
        if a.get_char(i) != b.get_char(i) {
            return false;
        }
        i = i + 1;
    }
    proof {
        assert(a@ =~= b@);
    }
    true
}

/// The field kind a placeholder token names, if any.
fn lookup_token(tok: &str) -> (r: Option<FieldKind>)
    ensures
        r == token_kind(tok@),
{
    if str_eq(tok, "method") {
        Some(FieldKind::Method)
    } else if str_eq(tok, "uri") {
        Some(FieldKind::Uri)
    } else if str_eq(tok, "status") {
        Some(FieldKind::Status)
    } else if str_eq(tok, "response-time") {
        Some(FieldKind::ResponseTimeMs)
    } else if str_eq(tok, "remote-addr") {
        Some(FieldKind::RemoteAddr)
    } else if str_eq(tok, "request-time") {
        Some(FieldKind::RequestTime)
    } else {
        None
    }
}

/// Compiles a template into an ordered sequence of format units, by a single
/// left-to-right scan.
///
/// Text outside braces becomes literal units (empty runs are skipped); each
/// `{...}` group must name a recognized field. A `{` with no matching `}`
/// fails with [`FormatError::UnterminatedPlaceholder`]; an unrecognized token
/// fails with [`FormatError::UnknownFieldToken`]. An empty template compiles
/// to an empty unit sequence, which is legal.
pub fn compile(template: &str) -> (r: Result<Format, FormatError>)
    ensures
        compiled_view(r) == spec_compile(template@),
{
    let ghost s = template@;
    let n: usize = template.unicode_len();
    let mut units: Vec<FormatUnit> = Vec::new();
    let mut i: usize = 0;
    proof {
        assert(units_view(units@) =~= Seq::<UnitView>::empty());
        if let Ok(rest) = spec_compile_from(s, 0) {
            assert(Seq::<UnitView>::empty() + rest =~= rest);
        }
    }
    loop
        invariant
            s == template@,
            n == s.len(),
            i <= n,
            spec_compile(s) == prepend_units(units_view(units@), spec_compile_from(s, i as int)),
        decreases n - i,
    {
        let ghost uv_old = units_view(units@);
        match find_from(template, '{', i) {
            None => {
                if i < n {
                    let lit = template.substring_char(i, n);
                    let owned: String = lit.to_owned();
                    proof {
                        lemma_units_view_push(units@, FormatUnit::Literal(owned));
                        assert(uv_old.push(UnitView::Literal(s.subrange(i as int, s.len() as int)))
                            =~= uv_old + seq![
                                UnitView::Literal(s.subrange(i as int, s.len() as int)),
                            ]);
                    }
                    units.push(FormatUnit::Literal(owned));
                } else {
                    proof {
                        assert(uv_old + Seq::<UnitView>::empty() =~= uv_old);
                    }
                }
                return Ok(Format(units));
            },
            Some(j) => {
                if i < j {
                    let lit = template.substring_char(i, j);
                    let owned: String = lit.to_owned();
                    proof {
                        lemma_units_view_push(units@, FormatUnit::Literal(owned));
                    }
                    units.push(FormatUnit::Literal(owned));
                }
                proof {
                    assert(uv_old + (if j > i {
                        seq![UnitView::Literal(s.subrange(i as int, j as int))]
                    } else {
                        Seq::<UnitView>::empty()
                    }) =~= units_view(units@));
                }
                let ghost uv_lit = units_view(units@);
                match find_from(template, '}', j + 1) {
                    None => {
                        return Err(FormatError::UnterminatedPlaceholder(j));
                    },
                    Some(k) => {
                        let tok = template.substring_char(j + 1, k);
                        match lookup_token(tok) {
                            None => {
                                return Err(FormatError::UnknownFieldToken(tok.to_owned()));
                            },
                            Some(kind) => {
                                proof {
                                    lemma_units_view_push(
                                        units@,
                                        FormatUnit::FieldPlaceholder(kind),
                                    );
                                    assert(uv_lit.push(UnitView::FieldPlaceholder(kind)) =~= uv_lit
                                        + seq![UnitView::FieldPlaceholder(kind)]);
                                    if let Ok(rest) = spec_compile_from(s, k + 1 as int) {
                                        assert(uv_old + ((if j > i {
                                            seq![UnitView::Literal(s.subrange(i as int, j as int))]
                                        } else {
                                            Seq::<UnitView>::empty()
                                        }) + seq![UnitView::FieldPlaceholder(kind)] + rest) =~= (
                                        uv_lit + seq![UnitView::FieldPlaceholder(kind)]) + rest);
                                    }
                                }
                                units.push(FormatUnit::FieldPlaceholder(kind));
                                i = k + 1;
                            },
                        }
                    },
                }
            },
        }
    }
}

/// One segment of a template as an author writes it: literal text, or a
/// placeholder `{token}`.
pub enum PieceView {
    /// Literal text between placeholders.
    Lit(Seq<char>),
    /// The token of one `{...}` group, braces not included.
    Hole(Seq<char>),
}

/// The template text one piece contributes.
pub open spec fn piece_text(p: PieceView) -> Seq<char> {
    match p {
        PieceView::Lit(s) => s,
        PieceView::Hole(tok) => seq!['{'] + tok + seq!['}'],
    }
}

/// The template text of a sequence of pieces, in order.
pub open spec fn pieces_text(ps: Seq<PieceView>) -> Seq<char>
    decreases ps.len(),
{
    if ps.len() == 0 {
        Seq::<char>::empty()
    } else {
        piece_text(ps[0]) + pieces_text(ps.drop_first())
    }
}

/// Text with no brace character.
pub open spec fn brace_free(s: Seq<char>) -> bool {
    forall|i: int| 0 <= i < s.len() ==> s[i] != '{' && s[i] != '}'
}

/// A piece a template may contain without a compilation error: literal text
/// free of braces, or a recognized placeholder token.
pub open spec fn wf_piece(p: PieceView) -> bool {
    match p {
        PieceView::Lit(s) => brace_free(s),
        PieceView::Hole(tok) => token_kind(tok) is Some,
    }
}

/// Every piece well formed.
pub open spec fn wf_pieces(ps: Seq<PieceView>) -> bool {
    forall|i: int| 0 <= i < ps.len() ==> wf_piece(#[trigger] ps[i])
}

/// A recognized placeholder token contains no brace.
proof fn lemma_token_brace_free(tok: Seq<char>)
    requires
        token_kind(tok) is Some,
    ensures
        brace_free(tok),
{
    reveal_strlit("method");
    reveal_strlit("uri");
    reveal_strlit("status");
    reveal_strlit("response-time");
    reveal_strlit("remote-addr");
    reveal_strlit("request-time");
    assert(brace_free("method"@));
    assert(brace_free("uri"@));
    assert(brace_free("status"@));
    assert(brace_free("response-time"@));
    assert(brace_free("remote-addr"@));
    assert(brace_free("request-time"@));
}

/// Skipping characters that are not `c` does not change what is found.
proof fn lemma_find_char_skip(s: Seq<char>, c: char, a: int, b: int)
    requires
        0 <= a <= b <= s.len(),
        forall|m: int| a <= m < b ==> s[m] != c,
    ensures
        find_char(s, c, a) == find_char(s, c, b),
    decreases b - a,
{
    if a < b {
        lemma_find_char_skip(s, c, a + 1, b);
    }
}

/// Whether compilation of a suffix succeeds does not depend on where the
/// literal run before the next `{` starts.
proof fn lemma_compile_ok_shift(s: Seq<char>, i: int, i2: int)
    requires
        0 <= i <= i2 <= s.len(),
        forall|m: int| i <= m < i2 ==> s[m] != '{',
    ensures
        spec_compile_from(s, i) is Ok <==> spec_compile_from(s, i2) is Ok,
{
    lemma_find_char_skip(s, '{', i, i2);
    if find_char(s, '{', i2) is Some {
        lemma_find_char_some(s, '{', i2);
    }
}

/// Compiling the text of well-formed pieces, standing as the suffix of `s`
/// that starts at `i`, succeeds.
proof fn lemma_wf_pieces_compile_ok(ps: Seq<PieceView>, s: Seq<char>, i: int)
    requires
        wf_pieces(ps),
        0 <= i <= s.len(),
        s.subrange(i, s.len() as int) == pieces_text(ps),
    ensures
        spec_compile_from(s, i) is Ok,
    decreases ps.len(),
{
    let suffix = s.subrange(i, s.len() as int);
    if ps.len() == 0 {
        assert(suffix.len() == 0);
        assert(i == s.len());
        assert(find_char(s, '{', i) is None);
    } else {
        let rest = ps.drop_first();
        assert(wf_pieces(rest)) by {
            assert forall|m: int| 0 <= m < rest.len() implies wf_piece(#[trigger] rest[m]) by {
                assert(rest[m] == ps[m + 1]);
            }
        }
        assert(wf_piece(ps[0]));
        match ps[0] {
            PieceView::Lit(t) => {
                let i2 = i + t.len();
                assert(suffix == t + pieces_text(rest));
                assert(i2 <= s.len()) by {
                    assert(suffix.len() == t.len() + pieces_text(rest).len());
                }
                assert(forall|m: int| i <= m < i2 ==> s[m] != '{') by {
                    assert forall|m: int| i <= m < i2 implies s[m] != '{' by {
                        assert(s[m] == suffix[m - i]);
                        assert(suffix[m - i] == t[m - i]);
                        assert(brace_free(t));
                    }
                }
                assert(s.subrange(i2, s.len() as int) =~= pieces_text(rest)) by {
                    assert forall|x: int|
                        0 <= x < s.len() - i2 implies s.subrange(i2, s.len() as int)[x]
                        == pieces_text(rest)[x] by {
                        assert(s.subrange(i2, s.len() as int)[x] == s[i2 + x]);
                        assert(s[i2 + x] == suffix[t.len() + x]);
                        assert(suffix[t.len() + x] == pieces_text(rest)[x]);
                    }
                }
                lemma_wf_pieces_compile_ok(rest, s, i2);
                lemma_compile_ok_shift(s, i, i2);
            },
            PieceView::Hole(tok) => {
                lemma_token_brace_free(tok);
                let open = i;
                let close = i + 1 + tok.len();
                let i2 = close + 1;
                assert(piece_text(ps[0]) == seq!['{'] + tok + seq!['}']);
                assert(suffix.len() == tok.len() + 2 + pieces_text(rest).len());
                assert(i2 <= s.len());
                assert(s[open] == '{') by {
                    assert(suffix[0] == (seq!['{'] + tok + seq!['}'])[0]);
                }
                assert(s[close] == '}') by {
                    assert(suffix[close - i] == (seq!['{'] + tok + seq!['}'])[close - i]);
                }
                assert(forall|m: int| open + 1 <= m < close ==> s[m] != '}' && s[m] != '{') by {
                    assert forall|m: int| open + 1 <= m < close implies s[m] != '}' && s[m]
                        != '{' by {
                        assert(s[m] == suffix[m - i]);
                        assert(suffix[m - i] == (seq!['{'] + tok + seq!['}'])[m - i]);
                        assert((seq!['{'] + tok + seq!['}'])[m - i] == tok[m - i - 1]);
                        assert(brace_free(tok));
                    }
                }
                assert(find_char(s, '{', i) == Some(open));
                lemma_find_char_skip(s, '}', open + 1, close);
                assert(find_char(s, '}', open + 1) == Some(close));
                assert(s.subrange(open + 1, close) =~= tok) by {
                    assert forall|x: int| 0 <= x < tok.len() implies s.subrange(open + 1, close)[x]
                        == tok[x] by {
                        assert(s.subrange(open + 1, close)[x] == s[open + 1 + x]);
                        assert(s[open + 1 + x] == suffix[1 + x]);
                        assert(suffix[1 + x] == (seq!['{'] + tok + seq!['}'])[1 + x]);
                    }
                }
                assert(s.subrange(i2, s.len() as int) =~= pieces_text(rest)) by {
                    assert forall|x: int|
                        0 <= x < s.len() - i2 implies s.subrange(i2, s.len() as int)[x]
                        == pieces_text(rest)[x] by {
                        assert(s.subrange(i2, s.len() as int)[x] == s[i2 + x]);
                        assert(s[i2 + x] == suffix[tok.len() + 2 + x]);
                        assert(suffix[tok.len() + 2 + x] == pieces_text(rest)[x]);
                    }
                }
                lemma_wf_pieces_compile_ok(rest, s, i2);
            },
        }
    }
}

/// A template assembled from brace-free literal text and recognized
/// placeholder tokens always compiles. Together with the exact contracts of
/// [`compile`] and [`crate::render::render`] — each result is a fixed
/// function of the template text and the context values — compiling and then
/// rendering such a template repeatedly with the same inputs yields
/// byte-identical output.
pub proof fn lemma_recognized_template_compiles(ps: Seq<PieceView>)
    requires
        wf_pieces(ps),
    ensures
        spec_compile(pieces_text(ps)) is Ok,
{
    let s = pieces_text(ps);
    assert(s.subrange(0, s.len() as int) =~= s);
    lemma_wf_pieces_compile_ok(ps, s, 0);
}

} // verus!

