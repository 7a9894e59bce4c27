use vstd::prelude::*;

verus! {

/// `regex::Regex`, a compiled regular expression, carried as an opaque value.
#[verifier::external_type_specification]
#[verifier::external_body]
pub struct ExRegex(regex::Regex);

/// `regex::Error`, the reason a pattern does not compile, carried as an opaque value.
#[verifier::external_type_specification]
#[verifier::external_body]
pub struct ExRegexError(regex::Error);

/// Whether `regex::Regex::new` accepts `pattern` (it must parse and fit the
/// default size limit).
pub uninterp spec fn regex_compiles(pattern: Seq<char>) -> bool;

/// The capture groups of the leftmost-first match of `pattern` in `haystack`
/// (group 0 being the whole match; `None` for a group that did not take part),
/// or `None` when there is no match.
pub uninterp spec fn regex_captures(pattern: Seq<char>, haystack: Seq<char>) -> Option<Seq<Option<Seq<char>>>>;

/// The lowercase form of `s` (Unicode `Lowercase` mapping).
pub uninterp spec fn lowercase(s: Seq<char>) -> Seq<char>;

/// A compiled regular expression and the pattern it was compiled from.
pub struct CompiledRegex {
    re: regex::Regex,
    pattern: Ghost<Seq<char>>,
}

impl CompiledRegex {
    /// The pattern the expression was compiled from.
    pub closed spec fn pattern(&self) -> Seq<char> {
        self.pattern@
    }
}

/// Compiles `pattern` with `regex::Regex::new`. Trusted: the result is `Ok`
/// exactly when `regex_compiles(pattern)`, and an `Ok` value remembers `pattern`.
#[verifier::external_body]
fn compile_regex(pattern: &str) -> (res: Result<CompiledRegex, regex::Error>)
    ensures
        res is Ok <==> regex_compiles(pattern@),
        res matches Ok(c) ==> c.pattern() == pattern@,
{
    match regex::Regex::new(pattern) {
        Ok(re) => Ok(CompiledRegex { re, pattern: Ghost(pattern@) }),
        Err(e) => Err(e),
    }
}

/// Runs `regex::Regex::captures` and copies each group's text into a `String`.
/// Trusted: the result is `regex_captures` of the compiled pattern and the haystack.
#[verifier::external_body]
fn regex_captures_of(re: &CompiledRegex, haystack: &str) -> (res: Option<Vec<Option<String>>>)
    ensures
        res.deep_view() == regex_captures(re.pattern(), haystack@),
{
    re.re.captures(haystack).map(|caps| caps.iter().map(|m| m.map(|m| m.as_str().to_string())).collect())
}

/// Calls `str::to_lowercase`. Trusted: the result is `lowercase(s)`.
#[verifier::external_body]
fn to_lowercase(s: &str) -> (res: String)
    ensures
        res@ == lowercase(s@),
{
    s.to_lowercase()
}

/// The move pattern: a file letter and a rank digit, anything, then another file
/// letter and rank digit.
pub open spec fn move_pattern() -> Seq<char> {
    "([a-hA-H])([1-8]).*([a-hA-H])([1-8])"@
}

/// The character a coordinate group is counted from: `'a'` for the file groups
/// (1 and 3), `'1'` for the rank groups (2 and 4).
pub open spec fn group_base(i: int) -> char {
    if i == 1 || i == 3 {
        'a'
    } else {
        '1'
    }
}

/// The groups hold the four coordinate groups, each of which, when non-empty,
/// starts at or above its base character.
pub open spec fn groups_readable(g: Seq<Option<Seq<char>>>) -> bool {
    &&& g.len() >= 5
    &&& forall|i: int|
        1 <= i <= 4 ==> (#[trigger] g[i]) is Some && (g[i].unwrap().len() > 0 ==> (g[i].unwrap()[0]
            as u32) >= (group_base(i) as u32))
}

/// The coordinate read from group `i`: its first character's distance from the base.
pub open spec fn group_coord(g: Seq<Option<Seq<char>>>, i: int) -> usize {
    ((g[i].unwrap()[0] as u32) - (group_base(i) as u32)) as usize
}

/// The move `(file, rank, file, rank)` that the four coordinate groups name, or
/// `None` when one of them is empty.
pub open spec fn coords_of_groups(g: Seq<Option<Seq<char>>>) -> Option<(usize, usize, usize, usize)> {
    if g[1].unwrap().len() > 0 && g[2].unwrap().len() > 0 && g[3].unwrap().len() > 0 && g[4].unwrap().len() > 0 {
        Some((group_coord(g, 1), group_coord(g, 2), group_coord(g, 3), group_coord(g, 4)))
    } else {
        None
    }
}

/// What `parse_move` reads from `input`: the move named by the match of the move
/// pattern in the lowercased input; `None` when there is no match, when the
/// pattern does not compile, or when the groups cannot be read as coordinates.
pub open spec fn parsed_move(input: Seq<char>) -> Option<(usize, usize, usize, usize)> {
    if !regex_compiles(move_pattern()) {
        None
    } else {
        match regex_captures(move_pattern(), lowercase(input)) {
            None => None,
            Some(g) => if groups_readable(g) {
                coords_of_groups(g)
            } else {
                None
            },
        }
    }
}

fn first_char(group: &Option<String>) -> (c: Option<char>)
    requires
        group is Some,
    ensures
        c == (if group.deep_view().unwrap().len() > 0 {
            Some(group.deep_view().unwrap()[0])
        } else {
            None
        }),
{
    match group {
        Some(s) => s.as_str().chars().next(),
        None => None,
    }
}

/// Reads the move `(file, rank, file, rank)` from the capture groups of the move
/// pattern: each coordinate is the first character of its group counted from `'a'`
/// or `'1'`.
pub fn coords_from_groups(groups: &Vec<Option<String>>) -> (r: Option<(usize, usize, usize, usize)>)
    requires
        groups_readable(groups.deep_view()),
    ensures
        r == coords_of_groups(groups.deep_view()),
{
    let ghost g = groups.deep_view();
    assert(forall|i: int| 1 <= i <= 4 ==> #[trigger] g[i] == groups@[i].deep_view());
    let c1 = first_char(&groups[1])?;
    let c2 = first_char(&groups[2])?;
    let c3 = first_char(&groups[3])?;
    let c4 = first_char(&groups[4])?;
    assert(c1 == g[1].unwrap()[0] && c2 == g[2].unwrap()[0] && c3 == g[3].unwrap()[0] && c4 == g[4].unwrap()[0]);
    assert(c1 as u32 >= 'a' as u32 && c2 as u32 >= '1' as u32 && c3 as u32 >= 'a' as u32 && c4 as u32 >= '1' as u32);
    let x_i = (c1 as u32 - 'a' as u32) as usize;
    let y_i = (c2 as u32 - '1' as u32) as usize;
    let x_f = (c3 as u32 - 'a' as u32) as usize;
    let y_f = (c4 as u32 - '1' as u32) as usize;
    Some((x_i, y_i, x_f, y_f))
}

fn groups_are_readable(groups: &Vec<Option<String>>) -> (r: bool)
    ensures
        r == groups_readable(groups.deep_view()),
{
    if groups.len() < 5 {
        return false;
    }
    let mut i: usize = 1;
    while i <= 4
        invariant
            1 <= i <= 5,
            groups.len() >= 5,
            forall|j: int|
                1 <= j < i ==> (#[trigger] groups.deep_view()[j]) is Some && (groups.deep_view()[j].unwrap().len()
                    > 0 ==> (groups.deep_view()[j].unwrap()[0] as u32) >= (group_base(j) as u32)),
        decreases 5 - i,
    {
        let base = if i == 1 || i == 3 { 'a' } else { '1' };
        assert(groups.deep_view()[i as int] == groups@[i as int].deep_view());
        match &groups[i] {
            None => {
                return false;
            },
            Some(s) => {
                if let Some(c) = s.as_str().chars().next() {
                    if (c as u32) < (base as u32) {
                        return false;
                    }
                }
            },
        }
        i = i + 1;
    }
    true
}

/// Reads a move such as `"A2 to A4"` as `(file, rank, file, rank)`, counted from 0
/// (file `a`, rank `1`): the input is lowercased and the first coordinate pair and
/// the last one after it on the same line are taken, as matched by
/// [`move_pattern`].
pub fn parse_move(input: &str) -> (r: Option<(usize, usize, usize, usize)>)
    ensures
        r == parsed_move(input@),
{
    let input_lower = to_lowercase(input);
    let re = match compile_regex("([a-hA-H])([1-8]).*([a-hA-H])([1-8])") {
        Ok(re) => re,
        Err(_) => {
            return None;
        },
    };
    let groups = regex_captures_of(&re, input_lower.as_str())?;
    if !groups_are_readable(&groups) {
        return None;
    }
    coords_from_groups(&groups)
}

} // verus!
