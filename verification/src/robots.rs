//! `robots.txt` rules: which paths of a site the collector may read.
use vstd::prelude::*;

use crate::text::{
    chars_of, eq_str, find_char, find_char_exec, has_prefix, is_blank, lemma_find_char_bounds,
    lower, lower_chars, seq_eq, starts_with, sub_chars, trim, trim_chars, views,
};

verus! {

/// A line without its final carriage return (when a line feed ended it).
pub open spec fn strip_cr(l: Seq<char>) -> Seq<char> {
    if l.len() > 0 && l.last() == '\r' {
        l.drop_last()
    } else {
        l
    }
}

/// `str::lines`: the text split at each line feed; a carriage return before
/// the line feed is dropped, and a final line feed opens no empty line.
pub open spec fn lines(s: Seq<char>) -> Seq<Seq<char>>
    decreases s.len(),
{
    if s.len() == 0 {
        Seq::empty()
    } else {
        let i = find_char(s, '\n');
        if i >= s.len() {
            seq![s]
        } else if i < 0 {
            Seq::empty()
        } else {
            seq![strip_cr(s.take(i))] + lines(s.skip(i + 1))
        }
    }
}

pub fn split_lines(s: &Vec<char>) -> (res: Vec<Vec<char>>)
    ensures
        views(res@) == lines(s@),
{
    let mut res: Vec<Vec<char>> = Vec::new();
    let mut start: usize = 0;
    assert(s@.skip(0) =~= s@);
    assert(views(res@) + lines(s@) =~= lines(s@));
    while start < s.len()
        invariant
            start <= s.len(),
            lines(s@) == views(res@) + lines(s@.skip(start as int)),
        decreases s.len() - start,
    {
        let rest = sub_chars(s, start, s.len());
        assert(rest@ == s@.skip(start as int));
        let i = find_char_exec(&rest, '\n');
        proof {
            lemma_find_char_bounds(rest@, '\n');
        }
        let ghost before = views(res@);
        if i == rest.len() {
            res.push(rest);
            assert(views(res@) =~= before.push(s@.skip(start as int)));
            assert(s@.skip(s.len() as int) =~= Seq::<char>::empty());
            start = s.len();
        } else {
            let mut line = sub_chars(&rest, 0, i);
            if line.len() > 0 && line[line.len() - 1] == '\r' {
                line.pop();
            }
            assert(line@ == strip_cr(rest@.take(i as int)));
            res.push(line);
            assert(views(res@) =~= before.push(strip_cr(rest@.take(i as int))));
            assert(rest@.skip(i + 1) =~= s@.skip(start + i + 1));
            start = start + i + 1;
        }
    }
    assert(s@.skip(start as int) =~= Seq::<char>::empty());
    assert(views(res@) + Seq::<Seq<char>>::empty() =~= views(res@));
    res
}

/// The text of a line before its first `#`, trimmed.
pub open spec fn rule_text(line: Seq<char>) -> Seq<char> {
    trim(line.take(find_char(line, '#')))
}

/// One rule of a robots file: a line `key: value`.
pub open spec fn rule_key(text: Seq<char>) -> Seq<char> {
    lower(trim(text.take(find_char(text, ':'))))
}

pub open spec fn rule_value(text: Seq<char>) -> Seq<char> {
    trim(text.skip(find_char(text, ':') + 1))
}

/// Whether a `User-agent` value names this collector: `*`, or its name in any
/// ASCII case.
pub open spec fn names_this_agent(value: Seq<char>) -> bool {
    value == "*"@ || lower(value) == lower("BusinessContactResearchTool"@)
}

/// The state after one line: whether the current group concerns this
/// collector, and the longest matching rule so far (its length and whether
/// it allows). A later rule of equal length replaces an earlier one.
pub open spec fn robots_step(line: Seq<char>, path: Seq<char>, relevant: bool, best: Option<
    (nat, bool),
>) -> (bool, Option<(nat, bool)>) {
    let text = rule_text(line);
    if find_char(text, ':') >= text.len() {
        (relevant, best)
    } else {
        let key = rule_key(text);
        let value = rule_value(text);
        if key == "user-agent"@ {
            (names_this_agent(value), best)
        } else if relevant && (key == "allow"@ || key == "disallow"@) && value.len() > 0
            && starts_with(path, value) {
            match best {
                Some((len, _)) if value.len() < len => (relevant, best),
                _ => (relevant, Some((value.len(), key == "allow"@))),
            }
        } else {
            (relevant, best)
        }
    }
}

pub open spec fn robots_fold(
    ls: Seq<Seq<char>>,
    path: Seq<char>,
    relevant: bool,
    best: Option<(nat, bool)>,
) -> Option<(nat, bool)>
    decreases ls.len(),
{
    if ls.len() == 0 {
        best
    } else {
        let (r, b) = robots_step(ls[0], path, relevant, best);
        robots_fold(ls.drop_first(), path, r, b)
    }
}

/// The decision for `path`: allowed without a robots file; otherwise the
/// longest `Allow`/`Disallow` value that starts the path, in a group for `*`
/// or for this collector, decides; allowed when no rule matches.
/// (Every value compared is a prefix of the path, so comparing lengths in
/// characters orders them as comparing lengths in bytes does.)
pub open spec fn robots_allows_spec(content: Option<Seq<char>>, path: Seq<char>) -> bool {
    match content {
        None => true,
        Some(c) => match robots_fold(lines(c), path, false, None) {
            None => true,
            Some((_, allowed)) => allowed,
        },
    }
}

/// The line is a `Disallow` rule whose value starts `path`.
pub open spec fn disallows(line: Seq<char>, path: Seq<char>) -> bool {
    let text = rule_text(line);
    &&& find_char(text, ':') < text.len()
    &&& rule_key(text) == "disallow"@
    &&& rule_value(text).len() > 0
    &&& starts_with(path, rule_value(text))
}

proof fn lemma_fold_refusal(ls: Seq<Seq<char>>, path: Seq<char>, relevant: bool, best: Option<(nat, bool)>)
    requires
        robots_fold(ls, path, relevant, best) matches Some((_, allowed)) && !allowed,
    ensures
        (best matches Some((_, allowed)) && !allowed) || exists|i: int|
            0 <= i < ls.len() && disallows(#[trigger] ls[i], path),
    decreases ls.len(),
{
    if ls.len() > 0 {
        let (r, b) = robots_step(ls[0], path, relevant, best);
        lemma_fold_refusal(ls.drop_first(), path, r, b);
        if exists|i: int| 0 <= i < ls.drop_first().len() && disallows(#[trigger] ls.drop_first()[i], path) {
            let i = choose|i: int| 0 <= i < ls.drop_first().len() && disallows(#[trigger] ls.drop_first()[i], path);
            assert(ls[i + 1] == ls.drop_first()[i]);
        } else if b != best {
            assert(disallows(ls[0], path));
        }
    }
}

/// A path is refused only when a `Disallow` rule of the robots file starts
/// it: without a robots file, or without such a rule, every path is read.
pub proof fn lemma_refusal_needs_disallow(content: Option<Seq<char>>, path: Seq<char>)
    requires
        !robots_allows_spec(content, path),
    ensures
        content matches Some(c) && exists|i: int| 0 <= i < lines(c).len() && disallows(#[trigger] lines(c)[i], path),
{
    let c = content->0;
    lemma_fold_refusal(lines(c), path, false, None);
}

/// The line is a `User-agent` line.
pub open spec fn is_agent_line(line: Seq<char>) -> bool {
    let text = rule_text(line);
    find_char(text, ':') < text.len() && rule_key(text) == "user-agent"@
}

/// Line `i` lies in a group for this collector: the latest `User-agent`
/// line before it names `*` or this collector.
pub open spec fn in_own_group(ls: Seq<Seq<char>>, i: int) -> bool {
    exists|j: int|
        0 <= j < i && is_agent_line(#[trigger] ls[j]) && names_this_agent(rule_value(rule_text(ls[j])))
            && forall|k: int| j < k < i ==> !is_agent_line(#[trigger] ls[k])
}

proof fn lemma_fold_refusal_in_group(
    ls: Seq<Seq<char>>,
    path: Seq<char>,
    relevant: bool,
    best: Option<(nat, bool)>,
)
    requires
        robots_fold(ls, path, relevant, best) matches Some((_, allowed)) && !allowed,
    ensures
        (best matches Some((_, allowed)) && !allowed) || exists|i: int|
            0 <= i < ls.len() && disallows(#[trigger] ls[i], path) && (in_own_group(ls, i) || (
            relevant && forall|k: int| 0 <= k < i ==> !is_agent_line(#[trigger] ls[k]))),
    decreases ls.len(),
{
    if ls.len() > 0 {
        let (r, b) = robots_step(ls[0], path, relevant, best);
        let tl = ls.drop_first();
        lemma_fold_refusal_in_group(tl, path, r, b);
        if best matches Some((_, allowed)) && !allowed {
        } else if b matches Some((_, allowed)) && !allowed {
            assert(b != best);
            assert(disallows(ls[0], path));
            assert(relevant);
            assert(disallows(ls[0], path) && (in_own_group(ls, 0) || (relevant && forall|k: int|
                0 <= k < 0 ==> !is_agent_line(#[trigger] ls[k]))));
        } else {
            let i2 = choose|i: int|
                0 <= i < tl.len() && disallows(#[trigger] tl[i], path) && (in_own_group(tl, i) || (r
                    && forall|k: int| 0 <= k < i ==> !is_agent_line(#[trigger] tl[k])));
            let i = i2 + 1;
            assert(ls[i] == tl[i2]);
            if in_own_group(tl, i2) {
                let j2 = choose|j: int|
                    0 <= j < i2 && is_agent_line(#[trigger] tl[j]) && names_this_agent(
                        rule_value(rule_text(tl[j])),
                    ) && forall|k: int| j < k < i2 ==> !is_agent_line(#[trigger] tl[k]);
                assert(ls[j2 + 1] == tl[j2]);
                assert forall|k: int| j2 + 1 < k < i implies !is_agent_line(#[trigger] ls[k]) by {
                    assert(ls[k] == tl[k - 1]);
                }
                assert(in_own_group(ls, i));
            } else if is_agent_line(ls[0]) {
                assert(r == names_this_agent(rule_value(rule_text(ls[0]))));
                assert forall|k: int| 0 < k < i implies !is_agent_line(#[trigger] ls[k]) by {
                    assert(ls[k] == tl[k - 1]);
                }
                assert(in_own_group(ls, i));
            } else {
                assert(r == relevant);
                assert forall|k: int| 0 <= k < i implies !is_agent_line(#[trigger] ls[k]) by {
                    if k > 0 {
                        assert(ls[k] == tl[k - 1]);
                    }
                }
            }
            assert(disallows(ls[i], path));
        }
    }
}

/// A path is refused only by a `Disallow` rule that starts it and stands in
/// a group for this collector: the latest `User-agent` line before the rule
/// names `*` or this collector. Rules in groups for other agents never
/// refuse anything.
pub proof fn lemma_refusal_needs_own_group(content: Option<Seq<char>>, path: Seq<char>)
    requires
        !robots_allows_spec(content, path),
    ensures
        content matches Some(c) && exists|i: int|
            0 <= i < lines(c).len() && disallows(#[trigger] lines(c)[i], path) && in_own_group(
                lines(c),
                i,
            ),
{
    let c = content->0;
    lemma_fold_refusal_in_group(lines(c), path, false, None);
}

/// The line is an `Allow` rule whose value starts `path`.
pub open spec fn permits(line: Seq<char>, path: Seq<char>) -> bool {
    let text = rule_text(line);
    &&& find_char(text, ':') < text.len()
    &&& rule_key(text) == "allow"@
    &&& rule_value(text).len() > 0
    &&& starts_with(path, rule_value(text))
}

/// Line `i` of `ls` is in a group for this collector, when the lines before
/// `ls` leave the collector's group open (`open`) or closed.
pub open spec fn own_at(ls: Seq<Seq<char>>, i: int, open: bool) -> bool {
    in_own_group(ls, i) || (open && forall|k: int| 0 <= k < i ==> !is_agent_line(#[trigger] ls[k]))
}

proof fn lemma_own_shift(ls: Seq<Seq<char>>, path: Seq<char>, r: bool, b: Option<(nat, bool)>, i: int)
    requires
        ls.len() > 0,
        0 <= i < ls.len() - 1,
    ensures
        own_at(ls, i + 1, r) == own_at(ls.drop_first(), i, robots_step(ls[0], path, r, b).0),
{
    let tl = ls.drop_first();
    let r2 = robots_step(ls[0], path, r, b).0;
    if is_agent_line(ls[0]) {
        assert(r2 == names_this_agent(rule_value(rule_text(ls[0]))));
        if own_at(ls, i + 1, r) {
            if in_own_group(ls, i + 1) {
                let j = choose|j: int|
                    0 <= j < i + 1 && is_agent_line(#[trigger] ls[j]) && names_this_agent(
                        rule_value(rule_text(ls[j])),
                    ) && forall|k: int| j < k < i + 1 ==> !is_agent_line(#[trigger] ls[k]);
                if j == 0 {
                    assert forall|k: int| 0 <= k < i implies !is_agent_line(#[trigger] tl[k]) by {
                        assert(tl[k] == ls[k + 1]);
                    }
                } else {
                    assert(tl[j - 1] == ls[j]);
                    assert forall|k: int| j - 1 < k < i implies !is_agent_line(#[trigger] tl[k]) by {
                        assert(tl[k] == ls[k + 1]);
                    }
                    assert(in_own_group(tl, i));
                }
            } else {
                assert(!is_agent_line(ls[0]));
            }
        }
        if own_at(tl, i, r2) {
            if in_own_group(tl, i) {
                let j = choose|j: int|
                    0 <= j < i && is_agent_line(#[trigger] tl[j]) && names_this_agent(
                        rule_value(rule_text(tl[j])),
                    ) && forall|k: int| j < k < i ==> !is_agent_line(#[trigger] tl[k]);
                assert(ls[j + 1] == tl[j]);
                assert forall|k: int| j + 1 < k < i + 1 implies !is_agent_line(#[trigger] ls[k]) by {
                    assert(ls[k] == tl[k - 1]);
                }
                assert(in_own_group(ls, i + 1));
            } else {
                assert forall|k: int| 0 < k < i + 1 implies !is_agent_line(#[trigger] ls[k]) by {
                    assert(ls[k] == tl[k - 1]);
                }
                assert(in_own_group(ls, i + 1));
            }
        }
    } else {
        assert(r2 == r);
        if own_at(ls, i + 1, r) {
            if in_own_group(ls, i + 1) {
                let j = choose|j: int|
                    0 <= j < i + 1 && is_agent_line(#[trigger] ls[j]) && names_this_agent(
                        rule_value(rule_text(ls[j])),
                    ) && forall|k: int| j < k < i + 1 ==> !is_agent_line(#[trigger] ls[k]);
                assert(j != 0);
                assert(tl[j - 1] == ls[j]);
                assert forall|k: int| j - 1 < k < i implies !is_agent_line(#[trigger] tl[k]) by {
                    assert(tl[k] == ls[k + 1]);
                }
                assert(in_own_group(tl, i));
            } else {
                assert forall|k: int| 0 <= k < i implies !is_agent_line(#[trigger] tl[k]) by {
                    assert(tl[k] == ls[k + 1]);
                }
            }
        }
        if own_at(tl, i, r2) {
            if in_own_group(tl, i) {
                let j = choose|j: int|
                    0 <= j < i && is_agent_line(#[trigger] tl[j]) && names_this_agent(
                        rule_value(rule_text(tl[j])),
                    ) && forall|k: int| j < k < i ==> !is_agent_line(#[trigger] tl[k]);
                assert(ls[j + 1] == tl[j]);
                assert forall|k: int| j + 1 < k < i + 1 implies !is_agent_line(#[trigger] ls[k]) by {
                    assert(ls[k] == tl[k - 1]);
                }
                assert(in_own_group(ls, i + 1));
            } else {
                assert forall|k: int| 0 <= k < i + 1 implies !is_agent_line(#[trigger] ls[k]) by {
                    if k > 0 {
                        assert(ls[k] == tl[k - 1]);
                    }
                }
            }
        }
    }
}

proof fn lemma_fold_refuses(ls: Seq<Seq<char>>, path: Seq<char>, r: bool, b: Option<(nat, bool)>)
    requires
        !(b matches Some((_, true))),
        (b matches Some((_, false))) || exists|i: int|
            0 <= i < ls.len() && disallows(#[trigger] ls[i], path) && own_at(ls, i, r),
        forall|k: int| 0 <= k < ls.len() && own_at(ls, k, r) ==> !permits(#[trigger] ls[k], path),
    ensures
        robots_fold(ls, path, r, b) matches Some((_, allowed)) && !allowed,
    decreases ls.len(),
{
    reveal_strlit("user-agent");
    reveal_strlit("allow");
    reveal_strlit("disallow");
    if ls.len() > 0 {
        let (r2, b2) = robots_step(ls[0], path, r, b);
        let tl = ls.drop_first();
        assert(own_at(ls, 0, r) == r);
        if b2 != b {
            assert(r && !is_agent_line(ls[0]));
            assert(!permits(ls[0], path));
            assert(b2 matches Some((_, false)));
        }
        assert forall|k: int| 0 <= k < tl.len() && own_at(tl, k, r2) implies !permits(
            #[trigger] tl[k],
            path,
        ) by {
            lemma_own_shift(ls, path, r, b, k);
            assert(tl[k] == ls[k + 1]);
        }
        if !(b2 matches Some((_, false))) {
            let i = choose|i: int|
                0 <= i < ls.len() && disallows(#[trigger] ls[i], path) && own_at(ls, i, r);
            if i == 0 {
                assert("disallow"@.len() != "user-agent"@.len());
                assert(!is_agent_line(ls[0]));
                assert(b2 matches Some((_, false)));
            }
            lemma_own_shift(ls, path, r, b, i - 1);
            assert(tl[i - 1] == ls[i]);
            assert(disallows(tl[i - 1], path) && own_at(tl, i - 1, r2));
        }
        lemma_fold_refuses(tl, path, r2, b2);
    }
}

/// A `Disallow` rule that starts the path, in a group for `*` or for this
/// collector, refuses the path unless an `Allow` rule that starts the path
/// stands in such a group too.
pub proof fn lemma_own_disallow_refuses(c: Seq<char>, path: Seq<char>, i: int)
    requires
        0 <= i < lines(c).len(),
        disallows(lines(c)[i], path),
        in_own_group(lines(c), i),
        forall|k: int|
            0 <= k < lines(c).len() && in_own_group(lines(c), k) ==> !permits(#[trigger] lines(c)[k], path),
    ensures
        !robots_allows_spec(Some(c), path),
{
    let ls = lines(c);
    assert(own_at(ls, i, false));
    assert forall|k: int| 0 <= k < ls.len() && own_at(ls, k, false) implies !permits(#[trigger] ls[k], path) by {
        assert(in_own_group(ls, k));
    }
    lemma_fold_refuses(ls, path, false, None);
}

fn robots_step_exec(
    line: &Vec<char>,
    path: &Vec<char>,
    relevant: bool,
    best: Option<(usize, bool)>,
) -> (res: (bool, Option<(usize, bool)>))
    requires
        best matches Some((l, _)) ==> l <= path.len(),
    ensures
        robots_step(line@, path@, relevant, opt_nat(best)) == (res.0, opt_nat(res.1)),
        res.1 matches Some((l, _)) ==> l <= path.len(),
{
    let hash = find_char_exec(line, '#');
    proof {
        lemma_find_char_bounds(line@, '#');
    }
    let before_hash = sub_chars(line, 0, hash);
    assert(before_hash@ == line@.take(find_char(line@, '#')));
    let text = trim_chars(&before_hash);
    let colon = find_char_exec(&text, ':');
    proof {
        lemma_find_char_bounds(text@, ':');
    }
    if colon >= text.len() {
        return (relevant, best);
    }
    let key_part = sub_chars(&text, 0, colon);
    assert(key_part@ == text@.take(find_char(text@, ':')));
    let key_trimmed = trim_chars(&key_part);
    let key = lower_chars(&key_trimmed);
    let value_part = sub_chars(&text, colon + 1, text.len());
    assert(value_part@ == text@.skip(find_char(text@, ':') + 1));
    let value = trim_chars(&value_part);
    if eq_str(&key, "user-agent") {
        let star = eq_str(&value, "*");
        let lv = lower_chars(&value);
        let name = chars_of("BusinessContactResearchTool");
        let lname = lower_chars(&name);
        let named = seq_eq(&lv, &lname);
        return (star || named, best);
    }
    let is_allow = eq_str(&key, "allow");
    let is_disallow = eq_str(&key, "disallow");
    if relevant && (is_allow || is_disallow) && value.len() > 0 && has_prefix(path, &value) {
        match best {
            Some((len, _)) if value.len() < len => (relevant, best),
            _ => (relevant, Some((value.len(), is_allow))),
        }
    } else {
        (relevant, best)
    }
}

pub open spec fn opt_nat(b: Option<(usize, bool)>) -> Option<(nat, bool)> {
    match b {
        Some((l, a)) => Some((l as nat, a)),
        None => None,
    }
}

/// Whether the robots file `content` (absent when none could be read) lets
/// the collector read `path`.
pub fn robots_allows(content: Option<&str>, path: &str) -> (res: bool)
    ensures
        res == robots_allows_spec(
            match content {
                Some(c) => Some(c@),
                None => None,
            },
            path@,
        ),
{
    let content = match content {
        None => return true,
        Some(c) => c,
    };
    let text = chars_of(content);
    let path_chars = chars_of(path);
    let ls = split_lines(&text);
    let mut relevant = false;
    let mut best: Option<(usize, bool)> = None;
    let mut i: usize = 0;
    assert(views(ls@).skip(0) =~= views(ls@));
    while i < ls.len()
        invariant
            i <= ls.len(),
            path_chars@ == path@,
            best matches Some((l, _)) ==> l <= path_chars.len(),
            robots_fold(lines(content@), path@, false, None) == robots_fold(
                views(ls@).skip(i as int),
                path@,
                relevant,
                opt_nat(best),
            ),
            views(ls@) == lines(text@),
            text@ == content@,
        decreases ls.len() - i,
    {
        let (r, b) = robots_step_exec(&ls[i], &path_chars, relevant, best);
        assert(views(ls@).skip(i as int).drop_first() =~= views(ls@).skip(i + 1));
        assert(views(ls@).skip(i as int)[0] == ls@[i as int]@);
        relevant = r;
        best = b;
        i = i + 1;
    }
    match best {
        None => true,
        Some((_, allowed)) => allowed,
    }
}

} // verus!
