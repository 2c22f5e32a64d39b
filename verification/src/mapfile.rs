//! The text format of map files.
//!
//! A map file lists the rows of the map from top to bottom, one per line.
//! Blank lines and lines whose first non-blank character is `#` are skipped.
//! Within a line, tile codes are separated by white space or commas:
//! `-5` victory chest, `-4` chest, `-3` invisible wall, `-2` house, `-1`
//! water, `0` grass, `1` or `2` path, `3` portal, `4` spiral portal, `5` second
//! spiral portal. A map must have exactly `MAP_HEIGHT` rows of `MAP_WIDTH`
//! tiles.
use vstd::prelude::*;
use vstd::string::StrSliceExecFns;
use crate::map::{grid_view, TileType, MAP_HEIGHT, MAP_WIDTH};

verus! {

/// Why a map text was refused.
#[derive(Clone, Debug)]
pub enum MapError {
    /// A token that is not an `i32` written in decimal.
    InvalidValue(Vec<char>),
    /// A number that is no tile code.
    UnknownCode(i32),
    /// The map does not have `MAP_HEIGHT` rows; it has this many.
    WrongLineCount(usize),
    /// Row `line` (counting from 0) does not have `MAP_WIDTH` tiles.
    WrongColumnCount { line: usize, columns: usize },
}

/// A `MapError` with its token read as a sequence of characters.
pub enum MapErrorView {
    InvalidValue(Seq<char>),
    UnknownCode(i32),
    WrongLineCount(usize),
    WrongColumnCount { line: usize, columns: usize },
}

impl View for MapError {
    type V = MapErrorView;

    open spec fn view(&self) -> MapErrorView {
        match self {
            MapError::InvalidValue(t) => MapErrorView::InvalidValue(t@),
            MapError::UnknownCode(v) => MapErrorView::UnknownCode(*v),
            MapError::WrongLineCount(n) => MapErrorView::WrongLineCount(*n),
            MapError::WrongColumnCount { line, columns } => MapErrorView::WrongColumnCount { line: *line, columns: *columns },
        }
    }
}

/// The Unicode `White_Space` characters, as `char::is_whitespace` knows them.
pub open spec fn is_white_space(c: char) -> bool {
    let v = c as u32;
    ||| 0x09 <= v <= 0x0d
    ||| v == 0x20
    ||| v == 0x85
    ||| v == 0xa0
    ||| v == 0x1680
    ||| 0x2000 <= v <= 0x200a
    ||| v == 0x2028
    ||| v == 0x2029
    ||| v == 0x202f
    ||| v == 0x205f
    ||| v == 0x3000
}

/// The Unicode `White_Space` characters.
pub fn white_space(c: char) -> (r: bool)
    ensures
        r == is_white_space(c),
{
    let v = c as u32;
    (0x09 <= v && v <= 0x0d) || v == 0x20 || v == 0x85 || v == 0xa0 || v == 0x1680 || (0x2000 <= v && v <= 0x200a)
        || v == 0x2028 || v == 0x2029 || v == 0x202f || v == 0x205f || v == 0x3000
}

/// What separates pieces of text: line breaks, or the separators of tokens
/// within a line (white space and commas).
#[derive(Clone, Copy, Debug, PartialEq, Eq, Structural)]
pub enum Separator {
    Newline,
    TokenBreak,
}

pub open spec fn separates(kind: Separator, c: char) -> bool {
    match kind {
        Separator::Newline => c == '\n',
        Separator::TokenBreak => is_white_space(c) || c == ',',
    }
}

fn is_separator(kind: Separator, c: char) -> (r: bool)
    ensures
        r == separates(kind, c),
{
    match kind {
        Separator::Newline => c == '\n',
        Separator::TokenBreak => white_space(c) || c == ',',
    }
}

/// The pieces of `s` between separators, empty pieces included: a text with
/// `n` separators has `n + 1` pieces.
pub open spec fn pieces(s: Seq<char>, kind: Separator) -> Seq<Seq<char>>
    decreases s.len(),
{
    if s.len() == 0 {
        seq![Seq::<char>::empty()]
    } else {
        let prev = pieces(s.drop_last(), kind);
        if separates(kind, s.last()) {
            prev.push(Seq::<char>::empty())
        } else {
            prev.update(prev.len() - 1, prev.last().push(s.last()))
        }
    }
}

proof fn lemma_pieces_nonempty(s: Seq<char>, kind: Separator)
    ensures
        pieces(s, kind).len() >= 1,
    decreases s.len(),
{
    if s.len() > 0 {
        lemma_pieces_nonempty(s.drop_last(), kind);
    }
}

/// The views of a list of character vectors.
pub open spec fn views(v: Seq<Vec<char>>) -> Seq<Seq<char>> {
    v.map_values(|p: Vec<char>| p@)
}

/// Cuts `s` at every separator of the given kind.
pub fn split_pieces(s: &Vec<char>, kind: Separator) -> (r: Vec<Vec<char>>)
    ensures
        views(r@) == pieces(s@, kind),
{
    let mut done: Vec<Vec<char>> = Vec::new();
    let mut current: Vec<char> = Vec::new();
    let n = s.len();
    for i in 0..n
        invariant
            n == s@.len(),
            views(done@).push(current@) == pieces(s@.take(i as int), kind),
    {
        proof {
            assert(s@.take(i as int + 1).drop_last() == s@.take(i as int));
            lemma_pieces_nonempty(s@.take(i as int), kind);
        }
        let c = s[i];
        if is_separator(kind, c) {
            let ghost d0 = done@;
            done.push(current);
            current = Vec::new();
            proof {
                assert(views(done@) == views(d0).push(views(done@).last()));
                assert(views(done@).push(current@) =~= pieces(s@.take(i as int + 1), kind));
            }
        } else {
            current.push(c);
            proof {
                assert(views(done@).push(current@) =~= pieces(s@.take(i as int + 1), kind));
            }
        }
    }
    proof {
        assert(s@.take(n as int) == s@);
    }
    let ghost d0 = done@;
    done.push(current);
    proof {
        assert(views(done@) =~= views(d0).push(current@));
    }
    done
}

/// `s` with its leading white space removed.
pub open spec fn skip_white_space(s: Seq<char>) -> Seq<char>
    decreases s.len(),
{
    if s.len() > 0 && is_white_space(s[0]) {
        skip_white_space(s.drop_first())
    } else {
        s
    }
}

/// A line that holds no row: blank, or a comment starting with `#`.
pub open spec fn line_is_skipped(line: Seq<char>) -> bool {
    let t = skip_white_space(line);
    t.len() == 0 || t[0] == '#'
}

fn skips_line(line: &Vec<char>) -> (r: bool)
    ensures
        r == line_is_skipped(line@),
{
    let n = line.len();
    let mut i: usize = 0;
    proof {
        assert(line@.skip(0) == line@);
    }
    while i < n && white_space(line[i])
        invariant
            n == line@.len(),
            i <= n,
            skip_white_space(line@) == skip_white_space(line@.skip(i as int)),
        decreases n - i,
    {
        proof {
            assert(line@.skip(i as int).drop_first() == line@.skip(i as int + 1));
        }
        i = i + 1;
    }
    proof {
        assert(skip_white_space(line@.skip(i as int)) == line@.skip(i as int));
    }
    i == n || line[i] == '#'
}

/// A decimal digit.
pub open spec fn is_digit(c: char) -> bool {
    '0' <= c <= '9'
}

/// The number written by the digits `s`.
pub open spec fn digits_value(s: Seq<char>) -> int
    decreases s.len(),
{
    if s.len() == 0 {
        0
    } else {
        digits_value(s.drop_last()) * 10 + (s.last() as int - '0' as int)
    }
}

pub open spec fn all_digits(s: Seq<char>) -> bool {
    forall|i: int| 0 <= i < s.len() ==> is_digit(#[trigger] s[i])
}

/// The `i32` that `s` writes in decimal, with an optional leading `+` or `-`,
/// as `str::parse::<i32>` reads it.
pub open spec fn int_of(s: Seq<char>) -> Option<i32> {
    let signed = s.len() > 0 && (s[0] == '-' || s[0] == '+');
    let negative = s.len() > 0 && s[0] == '-';
    let body = if signed { s.drop_first() } else { s };
    let v = if negative { -digits_value(body) } else { digits_value(body) };
    if body.len() > 0 && all_digits(body) && i32::MIN <= v <= i32::MAX {
        Some(v as i32)
    } else {
        None
    }
}

proof fn lemma_digits_grow(s: Seq<char>, k: int)
    requires
        all_digits(s),
        0 <= k <= s.len(),
    ensures
        0 <= digits_value(s.take(k)) <= digits_value(s),
    decreases s.len(),
{
    if s.len() > 0 {
        if k == s.len() {
            assert(s.take(k) == s);
            lemma_digits_grow(s.drop_last(), k - 1);
            assert(s.drop_last().take(k - 1) == s.drop_last());
        } else {
            lemma_digits_grow(s.drop_last(), k);
            assert(s.drop_last().take(k) == s.take(k));
            lemma_digits_grow(s.drop_last(), s.len() - 1);
            assert(s.drop_last().take(s.len() - 1) == s.drop_last());
        }
    } else {
        assert(s.take(k) == s);
    }
}

/// Reads an `i32` written in decimal, as `str::parse::<i32>` does.
pub fn parse_i32(s: &Vec<char>) -> (r: Option<i32>)
    ensures
        r == int_of(s@),
{
    let n = s.len();
    if n == 0 {
        return None;
    }
    let negative = s[0] == '-';
    let start: usize = if s[0] == '-' || s[0] == '+' { 1 } else { 0 };
    if start == n {
        return None;
    }
    let ghost body = s@.skip(start as int);
    proof {
        if start == 1 {
            assert(body == s@.drop_first());
        } else {
            assert(body == s@);
        }
    }
    let mut acc: i64 = 0;
    let mut i: usize = start;
    while i < n
        invariant
            n == s@.len(),
            start <= i <= n,
            body == s@.skip(start as int),
            body == (if s@.len() > 0 && (s@[0] == '-' || s@[0] == '+') { s@.drop_first() } else { s@ }),
            negative == (s@.len() > 0 && s@[0] == '-'),
            all_digits(body.take(i - start)),
            acc == digits_value(body.take(i - start)),
            0 <= acc <= 0x8000_0000,
        decreases n - i,
    {
        let c = s[i];
        if !('0' <= c && c <= '9') {
            proof {
                assert(body[i - start] == c);
                assert(!is_digit(body[i - start]));
                assert(!all_digits(body));
            }
            return None;
        }
        let d = (c as u32 - '0' as u32) as i64;
        proof {
            assert(body.take(i - start + 1).drop_last() == body.take(i - start));
            assert(body.take(i - start + 1).last() == c);
        }
        acc = acc * 10 + d;
        proof {
            assert(is_digit(c));
            assert(all_digits(body.take(i - start + 1)));
            assert(d == c as int - '0' as int);
            assert(acc == digits_value(body.take(i - start + 1)));
        }
        if acc > 0x8000_0000 {
            proof {
                if all_digits(body) {
                    lemma_digits_grow(body, i - start + 1);
                    assert(digits_value(body) > 0x8000_0000);
                }
            }
            return None;
        }
        i = i + 1;
    }
    proof {
        assert(body.take(n - start) == body);
    }
    if negative {
        Some((0 - acc) as i32)
    } else if acc <= 0x7fff_ffff {
        Some(acc as i32)
    } else {
        None
    }
}

/// The tile a code stands for.
pub open spec fn tile_of_code(v: i32) -> Option<TileType> {
    if v == -5 {
        Some(TileType::VictoryChest)
    } else if v == -4 {
        Some(TileType::Coffre)
    } else if v == -3 {
        Some(TileType::CollisionInvisible)
    } else if v == -2 {
        Some(TileType::Maison)
    } else if v == -1 {
        Some(TileType::Eau)
    } else if v == 0 {
        Some(TileType::Herbe)
    } else if v == 1 || v == 2 {
        Some(TileType::Chemin)
    } else if v == 3 {
        Some(TileType::Portal)
    } else if v == 4 {
        Some(TileType::SpiralPortal)
    } else if v == 5 {
        Some(TileType::SpiralPortal2)
    } else {
        None
    }
}

/// The tile a token stands for, or why it stands for none.
pub open spec fn token_tile(t: Seq<char>) -> Result<TileType, MapErrorView> {
    match int_of(t) {
        None => Err(MapErrorView::InvalidValue(t)),
        Some(v) => match tile_of_code(v) {
            Some(tile) => Ok(tile),
            None => Err(MapErrorView::UnknownCode(v)),
        },
    }
}

/// The error of a failed result, as a view.
pub open spec fn result_view<T>(r: Result<T, MapError>) -> Result<T, MapErrorView> {
    match r {
        Ok(v) => Ok(v),
        Err(e) => Err(e@),
    }
}

fn tile_from_token(token: &Vec<char>) -> (r: Result<TileType, MapError>)
    ensures
        result_view(r) == token_tile(token@),
{
    match parse_i32(token) {
        None => Err(MapError::InvalidValue(token.clone())),
        Some(v) => match v {
            -5 => Ok(TileType::VictoryChest),
            -4 => Ok(TileType::Coffre),
            -3 => Ok(TileType::CollisionInvisible),
            -2 => Ok(TileType::Maison),
            -1 => Ok(TileType::Eau),
            0 => Ok(TileType::Herbe),
            1 | 2 => Ok(TileType::Chemin),
            3 => Ok(TileType::Portal),
            4 => Ok(TileType::SpiralPortal),
            5 => Ok(TileType::SpiralPortal2),
            other => Err(MapError::UnknownCode(other)),
        },
    }
}

/// Reads one tile code.
pub fn parse_tile_value(token: &str) -> (r: Result<TileType, MapError>)
    ensures
        result_view(r) == token_tile(token@),
{
    let n = token.unicode_len();
    let mut chars: Vec<char> = Vec::new();
    for i in 0..n
        invariant
            n == token@.len(),
            chars@ == token@.take(i as int),
    {
        chars.push(token.get_char(i));
        proof {
            assert(chars@ =~= token@.take(i as int + 1));
        }
    }
    proof {
        assert(token@.take(n as int) == token@);
    }
    tile_from_token(&chars)
}

/// The tiles written by the tokens among `ps` (its non-empty pieces), or the
/// error of the first token that writes none.
pub open spec fn tiles_of(ps: Seq<Seq<char>>) -> Result<Seq<TileType>, MapErrorView>
    decreases ps.len(),
{
    if ps.len() == 0 {
        Ok(Seq::empty())
    } else {
        match tiles_of(ps.drop_last()) {
            Err(e) => Err(e),
            Ok(row) => if ps.last().len() == 0 {
                Ok(row)
            } else {
                match token_tile(ps.last()) {
                    Err(e) => Err(e),
                    Ok(t) => Ok(row.push(t)),
                }
            },
        }
    }
}

/// The tiles written on a line; none for a skipped line.
pub open spec fn line_tiles(line: Seq<char>) -> Result<Seq<TileType>, MapErrorView> {
    if line_is_skipped(line) {
        Ok(Seq::empty())
    } else {
        tiles_of(pieces(line, Separator::TokenBreak))
    }
}

/// The rows written by `lines`, lines without tiles left out, or the error of
/// the first line that fails.
pub open spec fn rows_of(lines: Seq<Seq<char>>) -> Result<Seq<Seq<TileType>>, MapErrorView>
    decreases lines.len(),
{
    if lines.len() == 0 {
        Ok(Seq::empty())
    } else {
        match rows_of(lines.drop_last()) {
            Err(e) => Err(e),
            Ok(rows) => match line_tiles(lines.last()) {
                Err(e) => Err(e),
                Ok(row) => Ok(if row.len() > 0 { rows.push(row) } else { rows }),
            },
        }
    }
}

proof fn lemma_tiles_error_stays(ps: Seq<Seq<char>>, k: int)
    requires
        0 <= k <= ps.len(),
        tiles_of(ps.take(k)) is Err,
    ensures
        tiles_of(ps) == tiles_of(ps.take(k)),
    decreases ps.len(),
{
    if k == ps.len() {
        assert(ps.take(k) == ps);
    } else {
        assert(ps.drop_last().take(k) == ps.take(k));
        lemma_tiles_error_stays(ps.drop_last(), k);
    }
}

proof fn lemma_rows_error_stays(ls: Seq<Seq<char>>, k: int)
    requires
        0 <= k <= ls.len(),
        rows_of(ls.take(k)) is Err,
    ensures
        rows_of(ls) == rows_of(ls.take(k)),
    decreases ls.len(),
{
    if k == ls.len() {
        assert(ls.take(k) == ls);
    } else {
        assert(ls.drop_last().take(k) == ls.take(k));
        lemma_rows_error_stays(ls.drop_last(), k);
    }
}

/// The tiles written on one line of a map file.
fn parse_line(line: &Vec<char>) -> (r: Result<Vec<TileType>, MapError>)
    ensures
        match r {
            Ok(row) => line_tiles(line@) == Ok::<Seq<TileType>, MapErrorView>(row@),
            Err(e) => line_tiles(line@) == Err::<Seq<TileType>, MapErrorView>(e@),
        },
{
    let mut row: Vec<TileType> = Vec::new();
    if skips_line(line) {
        return Ok(row);
    }
    let ps = split_pieces(line, Separator::TokenBreak);
    let ghost pv = views(ps@);
    let n = ps.len();
    for k in 0..n
        invariant
            n == ps@.len(),
            pv == views(ps@),
            pv == pieces(line@, Separator::TokenBreak),
            !line_is_skipped(line@),
            tiles_of(pv.take(k as int)) == Ok::<Seq<TileType>, MapErrorView>(row@),
    {
        proof {
            assert(pv.take(k as int + 1).drop_last() == pv.take(k as int));
            assert(pv[k as int] == ps@[k as int]@);
        }
        let token = &ps[k];
        if token.len() > 0 {
            match tile_from_token(token) {
                Err(e) => {
                    proof {
                        assert(pv.take(k as int + 1).last() == pv[k as int]);
                        assert(tiles_of(pv.take(k as int + 1)) == Err::<Seq<TileType>, MapErrorView>(e@));
                        lemma_tiles_error_stays(pv, k as int + 1);
                        assert(pv.take(n as int) == pv);
                    }
                    return Err(e);
                },
                Ok(t) => {
                    row.push(t);
                },
            }
        }
    }
    proof {
        assert(pv.take(n as int) == pv);
    }
    Ok(row)
}

/// The first row, from `from` on, that does not hold `MAP_WIDTH` tiles.
pub open spec fn first_wrong_row(rows: Seq<Seq<TileType>>, from: int) -> Option<int>
    decreases rows.len() - from,
{
    if from < 0 || from >= rows.len() {
        None
    } else if rows[from].len() != MAP_WIDTH {
        Some(from)
    } else {
        first_wrong_row(rows, from + 1)
    }
}

/// The map written by a map file's text, or why the text writes none.
pub open spec fn map_of_text(content: Seq<char>) -> Result<Seq<Seq<TileType>>, MapErrorView> {
    match rows_of(pieces(content, Separator::Newline)) {
        Err(e) => Err(e),
        Ok(rows) => if rows.len() != MAP_HEIGHT {
            Err(MapErrorView::WrongLineCount(rows.len() as usize))
        } else {
            match first_wrong_row(rows, 0) {
                Some(y) => Err(MapErrorView::WrongColumnCount { line: y as usize, columns: rows[y].len() as usize }),
                None => Ok(rows),
            }
        },
    }
}

/// A parsed map, with its error read as a view.
pub open spec fn map_result_view(r: Result<Vec<Vec<TileType>>, MapError>) -> Result<Seq<Seq<TileType>>, MapErrorView> {
    match r {
        Ok(v) => Ok(grid_view(v@)),
        Err(e) => Err(e@),
    }
}

/// Reads the map written in a map file's text.
pub fn parse_world_text(content: &str) -> (r: Result<Vec<Vec<TileType>>, MapError>)
    ensures
        map_result_view(r) == map_of_text(content@),
{
    let len = content.unicode_len();
    let mut chars: Vec<char> = Vec::new();
    for i in 0..len
        invariant
            len == content@.len(),
            chars@ == content@.take(i as int),
    {
        chars.push(content.get_char(i));
        proof {
            assert(chars@ =~= content@.take(i as int + 1));
        }
    }
    proof {
        assert(content@.take(len as int) == content@);
    }
    let lines = split_pieces(&chars, Separator::Newline);
    let ghost lv = views(lines@);
    let mut rows: Vec<Vec<TileType>> = Vec::new();
    let n = lines.len();
    proof {
        assert(lv.take(0) =~= Seq::<Seq<char>>::empty());
        assert(grid_view(rows@) =~= Seq::<Seq<TileType>>::empty());
    }
    for k in 0..n
        invariant
            n == lines@.len(),
            lv == views(lines@),
            lv == pieces(content@, Separator::Newline),
            rows_of(lv.take(k as int)) == Ok::<Seq<Seq<TileType>>, MapErrorView>(grid_view(rows@)),
    {
        proof {
            assert(lv.take(k as int + 1).drop_last() == lv.take(k as int));
            assert(lv[k as int] == lines@[k as int]@);
        }
        match parse_line(&lines[k]) {
            Err(e) => {
                proof {
                    assert(lv.take(k as int + 1).last() == lv[k as int]);
                    assert(rows_of(lv.take(k as int + 1)) == Err::<Seq<Seq<TileType>>, MapErrorView>(e@));
                    lemma_rows_error_stays(lv, k as int + 1);
                    assert(lv.take(n as int) == lv);
                }
                return Err(e);
            },
            Ok(row) => {
                if row.len() > 0 {
                    let ghost before = rows@;
                    let ghost rv = row@;
                    rows.push(row);
                    proof {
                        assert(grid_view(rows@) =~= grid_view(before).push(rv));
                    }
                }
            },
        }
    }
    proof {
        assert(lv.take(n as int) == lv);
    }
    if rows.len() != MAP_HEIGHT {
        return Err(MapError::WrongLineCount(rows.len()));
    }
    let ghost g = grid_view(rows@);
    for y in 0..MAP_HEIGHT
        invariant
            rows@.len() == MAP_HEIGHT,
            g == grid_view(rows@),
            rows_of(pieces(content@, Separator::Newline)) == Ok::<Seq<Seq<TileType>>, MapErrorView>(g),
            first_wrong_row(g, 0) == first_wrong_row(g, y as int),
    {
        proof {
            assert(g[y as int] == rows@[y as int]@);
        }
        if rows[y].len() != MAP_WIDTH {
            return Err(MapError::WrongColumnCount { line: y, columns: rows[y].len() });
        }
    }
    Ok(rows)
}

proof fn lemma_first_wrong_row(rows: Seq<Seq<TileType>>, from: int)
    requires
        0 <= from,
    ensures
        first_wrong_row(rows, from) is None ==> forall|y: int| from <= y < rows.len() ==> #[trigger] rows[y].len() == MAP_WIDTH,
        forall|y0: int| from <= y0 < rows.len() && #[trigger] rows[y0].len() != MAP_WIDTH
            && (forall|y: int| from <= y < y0 ==> #[trigger] rows[y].len() == MAP_WIDTH)
            ==> first_wrong_row(rows, from) == Some(y0),
    decreases rows.len() - from,
{
    if from < rows.len() {
        lemma_first_wrong_row(rows, from + 1);
        assert forall|y0: int| from <= y0 < rows.len() && #[trigger] rows[y0].len() != MAP_WIDTH
            && (forall|y: int| from <= y < y0 ==> #[trigger] rows[y].len() == MAP_WIDTH)
            implies first_wrong_row(rows, from) == Some(y0) by {
            if y0 > from {
                assert(rows[from].len() == MAP_WIDTH);
            }
        }
    }
}

/// A map text is accepted only as exactly `MAP_HEIGHT` rows of exactly
/// `MAP_WIDTH` tiles each.
pub proof fn lemma_accepted_maps_have_the_standard_size(content: Seq<char>)
    ensures
        map_of_text(content) matches Ok(rows) ==> {
            &&& rows.len() == MAP_HEIGHT
            &&& forall|y: int| 0 <= y < rows.len() ==> #[trigger] rows[y].len() == MAP_WIDTH
        },
{
    if let Ok(rows) = rows_of(pieces(content, Separator::Newline)) {
        lemma_first_wrong_row(rows, 0);
    }
}

/// Of a text whose lines all hold valid tile codes, making `MAP_HEIGHT` rows,
/// the first row that does not hold `MAP_WIDTH` tiles is reported, with its
/// number of tiles.
pub proof fn lemma_first_short_or_long_row_is_reported(content: Seq<char>, rows: Seq<Seq<TileType>>, y0: int)
    requires
        rows_of(pieces(content, Separator::Newline)) == Ok::<Seq<Seq<TileType>>, MapErrorView>(rows),
        rows.len() == MAP_HEIGHT,
        0 <= y0 < MAP_HEIGHT,
        rows[y0].len() != MAP_WIDTH,
        forall|y: int| 0 <= y < y0 ==> #[trigger] rows[y].len() == MAP_WIDTH,
    ensures
        map_of_text(content) == Err::<Seq<Seq<TileType>>, MapErrorView>(
            MapErrorView::WrongColumnCount { line: y0 as usize, columns: rows[y0].len() as usize }),
{
    lemma_first_wrong_row(rows, 0);
}

} // verus!
