//! Git ignore rules: the lines of `.gitignore` and `.git/info/exclude` files read as
//! patterns, and the decision whether a repository path is ignored by them.

use vstd::prelude::*;

use crate::scan::WalkStep;

verus! {

/// Whether the glob `p` matches all of `t`. `*` matches any run of characters other than
/// `/`, `?` one such character, `**` any run of characters including `/`, and `**/` also
/// nothing at all; `\` makes the character after it literal; every other character
/// matches itself.
pub open spec fn glob_at(p: Seq<char>, t: Seq<char>) -> bool
    decreases p.len() + t.len(),
{
    if p.len() == 0 {
        t.len() == 0
    } else if p[0] == '*' && p.len() > 1 && p[1] == '*' {
        ||| (p.len() > 2 && p[2] == '/' && glob_at(p.skip(3), t))
        ||| glob_at(p.skip(2), t)
        ||| (t.len() > 0 && glob_at(p, t.drop_first()))
    } else if p[0] == '*' {
        ||| glob_at(p.drop_first(), t)
        ||| (t.len() > 0 && t[0] != '/' && glob_at(p, t.drop_first()))
    } else if p[0] == '?' {
        t.len() > 0 && t[0] != '/' && glob_at(p.drop_first(), t.drop_first())
    } else if p[0] == '\\' && p.len() > 1 {
        t.len() > 0 && t[0] == p[1] && glob_at(p.skip(2), t.drop_first())
    } else {
        t.len() > 0 && t[0] == p[0] && glob_at(p.drop_first(), t.drop_first())
    }
}

/// Whether `p[i..]` matches `t[j..]`.
fn glob_from(p: &Vec<char>, i: usize, t: &Vec<char>, j: usize) -> (b: bool)
    requires
        i <= p@.len(),
        j <= t@.len(),
    ensures
        b == glob_at(p@.skip(i as int), t@.skip(j as int)),
    decreases p@.len() - i + t@.len() - j,
{
    let ghost ps = p@.skip(i as int);
    let ghost ts = t@.skip(j as int);
    if i == p.len() {
        return j == t.len();
    }
    assert(ps[0] == p@[i as int]);
    assert(ps.drop_first() =~= p@.skip(i + 1));
    if j < t.len() {
        assert(ts[0] == t@[j as int]);
        assert(ts.drop_first() =~= t@.skip(j + 1));
    }
    if p[i] == '*' && i + 1 < p.len() && p[i + 1] == '*' {
        assert(ps[1] == p@[i + 1]);
        assert(ps.skip(2) =~= p@.skip(i + 2));
        if i + 2 < p.len() && p[i + 2] == '/' {
            assert(ps[2] == p@[i + 2]);
            assert(ps.skip(3) =~= p@.skip(i + 3));
            if glob_from(p, i + 3, t, j) {
                return true;
            }
        }
        if glob_from(p, i + 2, t, j) {
            return true;
        }
        if j < t.len() {
            glob_from(p, i, t, j + 1)
        } else {
            false
        }
    } else if p[i] == '*' {
        if glob_from(p, i + 1, t, j) {
            return true;
        }
        if j < t.len() && t[j] != '/' {
            glob_from(p, i, t, j + 1)
        } else {
            false
        }
    } else if p[i] == '?' {
        j < t.len() && t[j] != '/' && glob_from(p, i + 1, t, j + 1)
    } else if p[i] == '\\' && i + 1 < p.len() {
        assert(ps[1] == p@[i + 1]);
        assert(ps.skip(2) =~= p@.skip(i + 2));
        j < t.len() && t[j] == p[i + 1] && glob_from(p, i + 2, t, j + 1)
    } else {
        j < t.len() && t[j] == p[i] && glob_from(p, i + 1, t, j + 1)
    }
}

/// Whether the glob `pattern` matches all of `text` (see `glob_at`).
pub fn glob_matches(pattern: &str, text: &str) -> (b: bool)
    ensures
        b == glob_at(pattern@, text@),
{
    let p = crate::text::chars_of(pattern);
    let t = crate::text::chars_of(text);
    assert(p@.skip(0) =~= p@);
    assert(t@.skip(0) =~= t@);
    glob_from(&p, 0, &t, 0)
}

/// A line's trailing spaces dropped, except a space escaped with `\`.
pub open spec fn strip_trailing_spaces(s: Seq<char>) -> Seq<char>
    decreases s.len(),
{
    if s.len() > 0 && s.last() == ' ' && !(s.len() > 1 && s[s.len() - 2] == '\\') {
        strip_trailing_spaces(s.drop_last())
    } else {
        s
    }
}

/// The rule one line of an ignore file states, as (pattern, negated, directory only,
/// anchored), or none for a blank line, a comment or a line with no pattern left. A
/// leading `!` negates the rule and a trailing `/` restricts it to directories; a `/`
/// left in the pattern anchors it to the ignore file's directory, and a leading one is
/// then dropped.
pub open spec fn rule_shape(line: Seq<char>) -> Option<(Seq<char>, bool, bool, bool)> {
    let s = strip_trailing_spaces(line);
    if s.len() == 0 || s[0] == '#' {
        None
    } else {
        let negated = s[0] == '!';
        let a = if negated {
            s.drop_first()
        } else {
            s
        };
        let directory_only = a.len() > 0 && a.last() == '/';
        let b = if directory_only {
            a.drop_last()
        } else {
            a
        };
        let anchored = b.contains('/');
        let c = if b.len() > 0 && b[0] == '/' {
            b.drop_first()
        } else {
            b
        };
        if c.len() == 0 {
            None
        } else {
            Some((c, negated, directory_only, anchored))
        }
    }
}

/// One rule of an ignore file: the directory that holds the file (relative to the
/// repository root, empty for the root), the glob and its three flags.
#[derive(Clone, Debug, PartialEq, Eq)]
pub struct IgnoreRule {
    pub base: String,
    pub pattern: String,
    pub negated: bool,
    pub directory_only: bool,
    pub anchored: bool,
}

impl View for IgnoreRule {
    type V = (Seq<char>, Seq<char>, bool, bool, bool);

    open spec fn view(&self) -> (Seq<char>, Seq<char>, bool, bool, bool) {
        (self.base@, self.pattern@, self.negated, self.directory_only, self.anchored)
    }
}

/// The views of a list of rules.
pub open spec fn rule_views(rules: Seq<IgnoreRule>) -> Seq<(Seq<char>, Seq<char>, bool, bool, bool)> {
    rules.map_values(|r: IgnoreRule| r@)
}

/// The rule that `line` of an ignore file in directory `base` states, if any.
pub open spec fn line_rule(line: Seq<char>, base: Seq<char>) -> Option<
    (Seq<char>, Seq<char>, bool, bool, bool),
> {
    match rule_shape(line) {
        Some((pattern, negated, directory_only, anchored)) => Some(
            (base, pattern, negated, directory_only, anchored),
        ),
        None => None,
    }
}

/// The rules that `lines` state, in order.
pub open spec fn rules_from_lines(lines: Seq<Seq<char>>, base: Seq<char>) -> Seq<
    (Seq<char>, Seq<char>, bool, bool, bool),
>
    decreases lines.len(),
{
    if lines.len() == 0 {
        seq![]
    } else {
        let earlier = rules_from_lines(lines.drop_last(), base);
        match line_rule(lines.last(), base) {
            Some(rule) => earlier.push(rule),
            None => earlier,
        }
    }
}

/// Length of `v[..n]` without its trailing unescaped spaces.
fn stripped_length(v: &Vec<char>) -> (n: usize)
    ensures
        n <= v@.len(),
        v@.take(n as int) == strip_trailing_spaces(v@),
{
    let mut n = v.len();
    assert(v@.take(n as int) =~= v@);
    while n > 0 && v[n - 1] == ' ' && !(n > 1 && v[n - 2] == '\\')
        invariant
            n <= v@.len(),
            strip_trailing_spaces(v@.take(n as int)) == strip_trailing_spaces(v@),
        decreases n,
    {
        assert(v@.take(n as int).drop_last() =~= v@.take(n - 1));
        n -= 1;
    }
    n
}

/// Whether `c` occurs in `v[lo..hi]`.
fn range_contains(v: &Vec<char>, lo: usize, hi: usize, c: char) -> (b: bool)
    requires
        lo <= hi <= v@.len(),
    ensures
        b == v@.subrange(lo as int, hi as int).contains(c),
{
    let ghost r = v@.subrange(lo as int, hi as int);
    let mut i = lo;
    while i < hi
        invariant
            lo <= i <= hi <= v@.len(),
            r == v@.subrange(lo as int, hi as int),
            forall|k: int| lo <= k < i ==> v@[k] != c,
        decreases hi - i,
    {
        if v[i] == c {
            assert(r[i - lo] == c);
            return true;
        }
        i += 1;
    }
    assert forall|k: int| 0 <= k < r.len() implies r[k] != c by {
        assert(r[k] == v@[lo + k]);
    }
    false
}

/// The rule that one line of an ignore file in directory `base` states, if any.
pub fn parse_ignore_line(line: &Vec<char>, base: &str) -> (r: Option<IgnoreRule>)
    ensures
        match r {
            Some(rule) => line_rule(line@, base@) == Some(rule@),
            None => line_rule(line@, base@) is None,
        },
{
    let n = stripped_length(line);
    let ghost s = line@.take(n as int);
    if n == 0 || line[0] == '#' {
        return None;
    }
    let negated = line[0] == '!';
    let start: usize = if negated {
        1
    } else {
        0
    };
    let directory_only = start < n && line[n - 1] == '/';
    let end: usize = if directory_only {
        n - 1
    } else {
        n
    };
    let ghost a = if negated {
        s.drop_first()
    } else {
        s
    };
    assert(a =~= line@.subrange(start as int, n as int));
    let ghost b = if directory_only {
        a.drop_last()
    } else {
        a
    };
    assert(b =~= line@.subrange(start as int, end as int));
    let anchored = range_contains(line, start, end, '/');
    let from: usize = if start < end && line[start] == '/' {
        start + 1
    } else {
        start
    };
    if from == end {
        return None;
    }
    let pattern = crate::text::string_from_range(line, from, end);
    assert(pattern@ =~= (if b.len() > 0 && b[0] == '/' {
        b.drop_first()
    } else {
        b
    }));
    Some(
        IgnoreRule {
            base: crate::text::string_from_chars(&crate::text::chars_of(base)),
            pattern,
            negated,
            directory_only,
            anchored,
        },
    )
}

/// The rules of an ignore file in directory `base` (relative to the repository root,
/// empty for the root) whose text is `contents`, in the order of its lines.
pub fn parse_ignore_rules(contents: &str, base: &str) -> (rules: Vec<IgnoreRule>)
    ensures
        rule_views(rules@) == rules_from_lines(crate::origin::lines_spec(contents@), base@),
{
    let lines = crate::origin::text_lines(&crate::text::chars_of(contents));
    let ghost all = crate::origin::lines_spec(contents@);
    let mut rules: Vec<IgnoreRule> = Vec::new();
    let mut i: usize = 0;
    while i < lines.len()
        invariant
            i <= lines@.len(),
            crate::text::char_views(lines@) == all,
            rule_views(rules@) == rules_from_lines(all.take(i as int), base@),
        decreases lines@.len() - i,
    {
        assert(all.take(i + 1).drop_last() =~= all.take(i as int));
        assert(crate::text::char_views(lines@)[i as int] == lines@[i as int]@);
        match parse_ignore_line(&lines[i], base) {
            Some(rule) => {
                rules.push(rule);
                assert(rule_views(rules@) =~= rules_from_lines(all.take(i + 1), base@));
            },
            None => {
                assert(rule_views(rules@) =~= rules_from_lines(all.take(i + 1), base@));
            },
        }
        i += 1;
    }
    assert(all.take(lines@.len() as int) =~= all);
    rules
}

/// The part of `path` below directory `base`: all of it for the root (empty `base`),
/// none for a path that is not below `base`.
pub open spec fn below_base(path: Seq<char>, base: Seq<char>) -> Option<Seq<char>> {
    if base.len() == 0 {
        Some(path)
    } else if path.len() > base.len() && path.take(base.len() as int) == base && path[base.len() as int]
        == '/' {
        Some(path.skip(base.len() as int + 1))
    } else {
        None
    }
}

/// The last `/`-separated component of `path`.
pub open spec fn last_component(path: Seq<char>) -> Seq<char> {
    path.skip(crate::text::last_index(path, '/') + 1)
}

/// Whether `rule` matches the repository path `path` (a directory if `is_directory`):
/// the path lies below the rule's directory, is a directory if the rule asks for one,
/// and the glob matches the path below that directory if the rule is anchored, or else
/// its last component.
pub open spec fn rule_applies(
    rule: (Seq<char>, Seq<char>, bool, bool, bool),
    path: Seq<char>,
    is_directory: bool,
) -> bool {
    match below_base(path, rule.0) {
        Some(rest) => (!rule.3 || is_directory) && if rule.4 {
            glob_at(rule.1, rest)
        } else {
            glob_at(rule.1, last_component(rest))
        },
        None => false,
    }
}

/// What the last rule of `rules` that matches `path` says: ignored (`Some(true)`) for a
/// plain rule, re-included (`Some(false)`) for a negated one; none if no rule matches.
pub open spec fn ignore_verdict(
    rules: Seq<(Seq<char>, Seq<char>, bool, bool, bool)>,
    path: Seq<char>,
    is_directory: bool,
) -> Option<bool>
    decreases rules.len(),
{
    if rules.len() == 0 {
        None
    } else if rule_applies(rules.last(), path, is_directory) {
        Some(!rules.last().2)
    } else {
        ignore_verdict(rules.drop_last(), path, is_directory)
    }
}

/// Whether `rules` ignore `path`: the last rule that matches it is not negated.
pub open spec fn ignored_by(
    rules: Seq<(Seq<char>, Seq<char>, bool, bool, bool)>,
    path: Seq<char>,
    is_directory: bool,
) -> bool {
    ignore_verdict(rules, path, is_directory) == Some(true)
}

/// The part of `path` below directory `base`, if the path lies there.
fn path_below_base(path: &Vec<char>, base: &Vec<char>) -> (r: Option<Vec<char>>)
    ensures
        match r {
            Some(rest) => below_base(path@, base@) == Some(rest@),
            None => below_base(path@, base@) is None,
        },
{
    if base.len() == 0 {
        return Some(crate::text::slice_chars(path, 0, path.len()));
    }
    if path.len() > base.len() && crate::text::chars_have_prefix(path, base) && path[base.len()]
        == '/' {
        Some(crate::text::slice_chars(path, base.len() + 1, path.len()))
    } else {
        None
    }
}

/// Whether `rule` matches the repository path `path` (see `rule_applies`).
pub fn rule_matches(rule: &IgnoreRule, path: &str, is_directory: bool) -> (b: bool)
    ensures
        b == rule_applies(rule@, path@, is_directory),
{
    let path_chars = crate::text::chars_of(path);
    let base = crate::text::chars_of(rule.base.as_str());
    let rest = match path_below_base(&path_chars, &base) {
        Some(rest) => rest,
        None => {
            return false;
        },
    };
    if rule.directory_only && !is_directory {
        return false;
    }
    let pattern = crate::text::chars_of(rule.pattern.as_str());
    let subject = if rule.anchored {
        rest
    } else {
        let n = rest.len();
        let from = match crate::text::rfind_char(&rest, '/') {
            Some(i) => i + 1,
            None => 0,
        };
        proof {
            crate::text::lemma_last_index_bounds(rest@, '/');
        }
        assert(rest@.subrange(from as int, rest@.len() as int) =~= last_component(rest@));
        crate::text::slice_chars(&rest, from, n)
    };
    assert(pattern@.skip(0) =~= pattern@);
    assert(subject@.skip(0) =~= subject@);
    glob_from(&pattern, 0, &subject, 0)
}

/// Whether `rules` ignore the repository path `path` (a directory if `is_directory`):
/// the last rule that matches it decides, and a path no rule matches is not ignored.
pub fn is_ignored(rules: &Vec<IgnoreRule>, path: &str, is_directory: bool) -> (b: bool)
    ensures
        b == ignored_by(rule_views(rules@), path@, is_directory),
{
    let ghost all = rule_views(rules@);
    let mut i = rules.len();
    assert(all.take(i as int) =~= all);
    while i > 0
        invariant
            i <= rules@.len(),
            all == rule_views(rules@),
            ignore_verdict(all.take(i as int), path@, is_directory) == ignore_verdict(
                all,
                path@,
                is_directory,
            ),
        decreases i,
    {
        let ghost prefix = all.take(i as int);
        assert(prefix.last() == rules@[i - 1]@);
        if rule_matches(&rules[i - 1], path, is_directory) {
            return !rules[i - 1].negated;
        }
        assert(prefix.drop_last() =~= all.take(i - 1));
        i -= 1;
    }
    false
}

/// A `!` in front of a line does not change which of its trailing spaces are dropped.
proof fn lemma_strip_after_bang(line: Seq<char>)
    ensures
        strip_trailing_spaces(seq!['!'] + line) == seq!['!'] + strip_trailing_spaces(line),
    decreases line.len(),
{
    let s = seq!['!'] + line;
    if line.len() > 0 {
        assert(s.last() == line.last());
        assert(s.drop_last() =~= seq!['!'] + line.drop_last());
        if line.len() > 1 {
            assert(s[s.len() - 2] == line[line.len() - 2]);
        }
        lemma_strip_after_bang(line.drop_last());
    }
}

/// A line with `!` in front states the same rule negated; placed after the plain rule, it
/// re-includes every path that the plain rule ignores.
pub proof fn lemma_negated_line_reincludes(
    rules: Seq<(Seq<char>, Seq<char>, bool, bool, bool)>,
    line: Seq<char>,
    base: Seq<char>,
    rule: (Seq<char>, Seq<char>, bool, bool, bool),
    path: Seq<char>,
    is_directory: bool,
)
    requires
        line_rule(line, base) == Some(rule),
        !rule.2,
    ensures
        line_rule(seq!['!'] + line, base) == Some((rule.0, rule.1, true, rule.3, rule.4)),
        rule_applies(rule, path, is_directory) ==> ignored_by(rules.push(rule), path, is_directory)
            && !ignored_by(
            rules.push(rule).push((rule.0, rule.1, true, rule.3, rule.4)),
            path,
            is_directory,
        ),
{
    lemma_strip_after_bang(line);
    let s = strip_trailing_spaces(line);
    let t = strip_trailing_spaces(seq!['!'] + line);
    assert(t.drop_first() =~= s);
    assert(t[0] == '!');
    let negated = (rule.0, rule.1, true, rule.3, rule.4);
    let longer = rules.push(rule).push(negated);
    assert(longer.drop_last() =~= rules.push(rule));
}

/// Rules read from an ignore file in directory `base` leave the verdict on any path
/// outside that directory as the earlier rules give it.
pub proof fn lemma_rules_stay_below_base(
    earlier: Seq<(Seq<char>, Seq<char>, bool, bool, bool)>,
    lines: Seq<Seq<char>>,
    base: Seq<char>,
    path: Seq<char>,
    is_directory: bool,
)
    requires
        below_base(path, base) is None,
    ensures
        ignore_verdict(earlier + rules_from_lines(lines, base), path, is_directory)
            == ignore_verdict(earlier, path, is_directory),
    decreases lines.len(),
{
    if lines.len() == 0 {
        assert(earlier + rules_from_lines(lines, base) =~= earlier);
    } else {
        let front = rules_from_lines(lines.drop_last(), base);
        lemma_rules_stay_below_base(earlier, lines.drop_last(), base, path, is_directory);
        match line_rule(lines.last(), base) {
            Some(rule) => {
                let all = earlier + front.push(rule);
                assert(all.last() == rule);
                assert(all.drop_last() =~= earlier + front);
            },
            None => {},
        }
    }
}

/// A second rule with the same fields.
fn copy_rule(rule: &IgnoreRule) -> (r: IgnoreRule)
    ensures
        r@ == rule@,
{
    IgnoreRule {
        base: crate::text::string_from_chars(&crate::text::chars_of(rule.base.as_str())),
        pattern: crate::text::string_from_chars(&crate::text::chars_of(rule.pattern.as_str())),
        negated: rule.negated,
        directory_only: rule.directory_only,
        anchored: rule.anchored,
    }
}

/// The rules that apply inside a directory: those in force in its parent, then those of
/// its own `.gitignore` file, read with the directory (`base`, relative to the root) as
/// their base, when it has one.
pub fn directory_rules(inherited: &Vec<IgnoreRule>, gitignore: Option<&str>, base: &str) -> (r: Vec<
    IgnoreRule,
>)
    ensures
        rule_views(r@) == rule_views(inherited@) + match gitignore {
            Some(text) => rules_from_lines(crate::origin::lines_spec(text@), base@),
            None => Seq::empty(),
        },
{
    let mut r: Vec<IgnoreRule> = Vec::new();
    let mut i: usize = 0;
    while i < inherited.len()
        invariant
            i <= inherited@.len(),
            rule_views(r@) == rule_views(inherited@).take(i as int),
        decreases inherited@.len() - i,
    {
        let ghost before = r@;
        r.push(copy_rule(&inherited[i]));
        assert(rule_views(r@) =~= rule_views(inherited@).take(i + 1)) by {
            assert(r@.drop_last() == before);
            assert(rule_views(r@) =~= rule_views(before).push(inherited@[i as int]@));
            assert(rule_views(inherited@).take(i + 1) =~= rule_views(inherited@).take(
                i as int,
            ).push(inherited@[i as int]@));
        }
        i += 1;
    }
    assert(rule_views(inherited@).take(inherited@.len() as int) =~= rule_views(inherited@));
    match gitignore {
        Some(text) => {
            let own = parse_ignore_rules(text, base);
            let mut j: usize = 0;
            let ghost start = r@;
            while j < own.len()
                invariant
                    j <= own@.len(),
                    rule_views(r@) == rule_views(start) + rule_views(own@).take(j as int),
                decreases own@.len() - j,
            {
                let ghost before = r@;
                r.push(copy_rule(&own[j]));
                assert(rule_views(r@) =~= rule_views(start) + rule_views(own@).take(j + 1)) by {
                    assert(r@.drop_last() == before);
                    assert(rule_views(r@) =~= rule_views(before).push(own@[j as int]@));
                }
                j += 1;
            }
            assert(rule_views(own@).take(own@.len() as int) =~= rule_views(own@));
        },
        None => {
            assert(rule_views(r@) + Seq::empty() =~= rule_views(r@));
        },
    }
    r
}

/// Whether a scan keeps what one step of its walk found: with the ignore rules of a git
/// repository, a directory or file that they ignore is dropped; everything else, and
/// everything outside a git repository (no rules), is kept.
pub fn walk_step_kept(rules: Option<&Vec<IgnoreRule>>, step: &WalkStep) -> (b: bool)
    ensures
        b == match (rules, step) {
            (Some(rs), WalkStep::Descend(d)) => !ignored_by(rule_views(rs@), d.relative_path@, true),
            (Some(rs), WalkStep::Record(f)) => !ignored_by(rule_views(rs@), f.relative_path@, false),
            _ => true,
        },
{
    match (rules, step) {
        (Some(rs), WalkStep::Descend(d)) => !is_ignored(rs, d.relative_path.as_str(), true),
        (Some(rs), WalkStep::Record(f)) => !is_ignored(rs, f.relative_path.as_str(), false),
        _ => true,
    }
}

/// A pattern line with no `/` but perhaps a trailing one matches at any depth below the
/// ignore file's directory: the rule it states applies to a path below that directory
/// exactly when the glob matches the path's last component, and, for the `name/` form,
/// the path is also a directory. (Git reads `node_modules/` this way: it ignores a
/// `node_modules` directory wherever it stands.)
pub proof fn lemma_unanchored_lines_match_anywhere(
    pattern: Seq<char>,
    base: Seq<char>,
    path: Seq<char>,
    is_directory: bool,
)
    requires
        pattern.len() > 0,
        forall|k: int| 0 <= k < pattern.len() ==> pattern[k] != '/',
        pattern[0] != '!',
        pattern[0] != '#',
        pattern.last() != ' ',
        below_base(path, base) is Some,
    ensures
        line_rule(pattern, base) == Some((base, pattern, false, false, false)),
        line_rule(pattern + seq!['/'], base) == Some((base, pattern, false, true, false)),
        rule_applies(line_rule(pattern, base)->Some_0, path, is_directory) == glob_at(
            pattern,
            last_component(below_base(path, base)->Some_0),
        ),
        rule_applies(line_rule(pattern + seq!['/'], base)->Some_0, path, is_directory) == (
        is_directory && glob_at(pattern, last_component(below_base(path, base)->Some_0))),
{
    assert(!pattern.contains('/'));
    assert(strip_trailing_spaces(pattern) == pattern);
    let d = pattern + seq!['/'];
    assert(d.last() == '/');
    assert(strip_trailing_spaces(d) == d);
    assert(d[0] == pattern[0]);
    assert(d.drop_last() =~= pattern);
}

/// A pattern line with a `/` inside it is anchored to the ignore file's directory: the
/// rule it states applies to a path below that directory exactly when the glob matches the
/// whole rest of the path, and a leading `/` only marks the anchoring.
pub proof fn lemma_anchored_lines_match_from_base(
    pattern: Seq<char>,
    base: Seq<char>,
    path: Seq<char>,
    is_directory: bool,
)
    requires
        pattern.len() > 0,
        pattern.contains('/'),
        pattern[0] != '/',
        pattern[0] != '!',
        pattern[0] != '#',
        pattern.last() != ' ',
        pattern.last() != '/',
        below_base(path, base) is Some,
    ensures
        line_rule(pattern, base) == Some((base, pattern, false, false, true)),
        line_rule(seq!['/'] + pattern, base) == Some((base, pattern, false, false, true)),
        rule_applies(line_rule(pattern, base)->Some_0, path, is_directory) == glob_at(
            pattern,
            below_base(path, base)->Some_0,
        ),
{
    assert(strip_trailing_spaces(pattern) == pattern);
    let l = seq!['/'] + pattern;
    assert(l.last() == pattern.last());
    assert(strip_trailing_spaces(l) == l);
    assert(l[0] == '/');
    assert(l.drop_first() =~= pattern);
    let i = choose|i: int| 0 <= i < pattern.len() && pattern[i] == '/';
    assert(l[i + 1] == '/');
    assert(l.contains('/'));
}

} // verus!
