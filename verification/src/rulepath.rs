//! The path expressions of cleanup rules and the `%NAME%` references of
//! configured paths, both read against a table of environment variables.

use crate::text::{ascii_lowercase, chars_of, same, string_of, to_ascii_lower};
use vstd::prelude::*;

verus! {

/// The environment variables that a path may name. Where `fold` is set, names
/// are looked up without regard to ASCII case.
#[derive(Debug)]
pub struct Env {
    pub vars: Vec<(String, String)>,
    pub fold: bool,
}

/// Whether the variable `a` is the one asked for by the name `b`.
pub open spec fn same_name(a: Seq<char>, b: Seq<char>, fold: bool) -> bool {
    if fold {
        ascii_lowercase(a) == ascii_lowercase(b)
    } else {
        a == b
    }
}

/// The value of the first variable of the table with the given name.
pub open spec fn looked_up(
    vars: Seq<(String, String)>,
    name: Seq<char>,
    fold: bool,
) -> Option<Seq<char>>
    decreases vars.len(),
{
    if vars.len() == 0 {
        None
    } else if same_name(vars[0].0@, name, fold) {
        Some(vars[0].1@)
    } else {
        looked_up(vars.skip(1), name, fold)
    }
}

impl Env {
    /// The value of a variable.
    pub open spec fn value(self, name: Seq<char>) -> Option<Seq<char>> {
        looked_up(self.vars@, name, self.fold)
    }

    /// The value of a variable.
    pub fn get(&self, name: &str) -> (out: Option<String>)
        ensures
            match out {
                Some(v) => self.value(name@) == Some(v@),
                None => self.value(name@) is None,
            },
    {
        let low: String = to_ascii_lower(name);
        let mut i: usize = 0;
        assert(self.vars@.skip(0) =~= self.vars@);
        while i < self.vars.len()
            invariant
                i <= self.vars@.len(),
                low@ == ascii_lowercase(name@),
                self.value(name@) == looked_up(self.vars@.skip(i as int), name@, self.fold),
            decreases self.vars@.len() - i,
        {
            assert(self.vars@.skip(i as int).skip(1) =~= self.vars@.skip(i + 1));
            let hit: bool = if self.fold {
                same(to_ascii_lower(self.vars[i].0.as_str()).as_str(), low.as_str())
            } else {
                same(self.vars[i].0.as_str(), name)
            };
            if hit {
                return Some(self.vars[i].1.clone());
            }
            i += 1;
        }
        None
    }
}

// ------------------------------------------------------------ path expressions

/// How many operands one expression may hold.
pub const RULE_PATH_MAX_DEPTH: u32 = 32;

pub open spec fn space(c: char) -> bool {
    c == ' ' || c == '\t'
}

/// The first position at or after `i` that holds no space.
pub open spec fn skip_spaces(s: Seq<char>, i: int) -> int
    decreases s.len() - i,
{
    if 0 <= i < s.len() && space(s[i]) {
        skip_spaces(s, i + 1)
    } else {
        i
    }
}

/// The rest of a quoted literal at `i`, put behind what was read before. A
/// doubled quote stands for one.
pub open spec fn literal_rest(s: Seq<char>, i: int, before: Seq<char>) -> Option<(Seq<char>, int)>
    decreases s.len() - i,
{
    if i < 0 || i >= s.len() {
        None
    } else if s[i] != '\'' {
        literal_rest(s, i + 1, before.push(s[i]))
    } else if i + 1 < s.len() && s[i + 1] == '\'' {
        literal_rest(s, i + 2, before.push('\''))
    } else {
        Some((before, i + 1))
    }
}

pub open spec fn name_char(c: char) -> bool {
    ('0' <= c && c <= '9') || ('a' <= c && c <= 'z') || ('A' <= c && c <= 'Z') || c == '_'
}

/// The first position at or after `i` that holds no character of a name.
pub open spec fn name_end(s: Seq<char>, i: int) -> int
    decreases s.len() - i,
{
    if 0 <= i < s.len() && name_char(s[i]) {
        name_end(s, i + 1)
    } else {
        i
    }
}

/// The operand at `i`, after spaces: a bracketed expression, a quoted literal
/// or a variable (the empty text where it is not set). `d` operands were read
/// before. Returns the text, the position after it and the operands read.
pub open spec fn operand_at(s: Seq<char>, i: int, d: nat, env: Env) -> Option<
    (Seq<char>, int, nat),
>
    decreases 33 - d, 1int,
{
    let k = skip_spaces(s, i);
    if d >= 32 || k >= s.len() || k < i {
        None
    } else if s[k] == '(' {
        match sum_at(s, k + 1, d + 1, env) {
            None => None,
            Some((v, j, e)) => {
                let m = skip_spaces(s, j);
                if m < s.len() && s[m] == ')' {
                    Some((v, m + 1, e))
                } else {
                    None
                }
            },
        }
    } else if s[k] == '\'' {
        match literal_rest(s, k + 1, Seq::empty()) {
            None => None,
            Some((t, j)) => Some((t, j, d + 1)),
        }
    } else if s[k] == '$' {
        if !crate::text::occurs_at(s, "$env:"@, k) {
            None
        } else {
            let e = name_end(s, k + 5);
            if e == k + 5 {
                None
            } else {
                let v = match env.value(s.subrange(k + 5, e)) {
                    Some(v) => v,
                    None => Seq::empty(),
                };
                Some((v, e, d + 1))
            }
        }
    } else {
        None
    }
}

/// The operands joined by `+` from `i` on.
pub open spec fn sum_at(s: Seq<char>, i: int, d: nat, env: Env) -> Option<(Seq<char>, int, nat)>
    decreases 33 - d, 2int,
{
    match operand_at(s, i, d, env) {
        None => None,
        Some((v, j, e)) => if d < e <= 32 {
            sum_rest(s, j, e, env, v)
        } else {
            None
        },
    }
}

/// The further operands from `i` on, joined to what was read before.
pub open spec fn sum_rest(s: Seq<char>, i: int, d: nat, env: Env, before: Seq<char>) -> Option<
    (Seq<char>, int, nat),
>
    decreases 33 - d, 2int,
{
    let j = skip_spaces(s, i);
    if j >= s.len() || s[j] != '+' {
        Some((before, i, d))
    } else {
        match operand_at(s, j + 1, d, env) {
            None => None,
            Some((v, k, e)) => if d < e <= 32 {
                sum_rest(s, k, e, env, before + v)
            } else {
                None
            },
        }
    }
}

/// The path that a whole expression denotes: operands joined by `+` with
/// nothing but spaces behind them.
pub open spec fn rule_path(s: Seq<char>, env: Env) -> Option<Seq<char>> {
    match sum_at(s, 0, 0, env) {
        None => None,
        Some((v, j, _)) => if skip_spaces(s, j) == s.len() {
            Some(v)
        } else {
            None
        },
    }
}

fn read_spaces(s: &Vec<char>, from: usize) -> (out: usize)
    requires
        from <= s@.len(),
    ensures
        out == skip_spaces(s@, from as int),
        from <= out <= s@.len(),
{
    let mut i: usize = from;
    while i < s.len() && (s[i] == ' ' || s[i] == '\t')
        invariant
            from <= i <= s@.len(),
            skip_spaces(s@, from as int) == skip_spaces(s@, i as int),
        decreases s@.len() - i,
    {
        i += 1;
    }
    i
}

fn read_literal(s: &Vec<char>, from: usize) -> (out: Option<(String, usize)>)
    requires
        from <= s@.len(),
    ensures
        match out {
            Some((t, j)) => literal_rest(s@, from as int, Seq::empty()) == Some((t@, j as int))
                && from < j <= s@.len(),
            None => literal_rest(s@, from as int, Seq::empty()) is None,
        },
{
    let mut out: String = String::new();
    let mut i: usize = from;
    assert(out@ =~= Seq::empty());
    loop
        invariant
            from <= i <= s@.len(),
            literal_rest(s@, from as int, Seq::empty()) == literal_rest(s@, i as int, out@),
        decreases s@.len() - i,
    {
        if i >= s.len() {
            return None;
        }
        if s[i] != '\'' {
            out.push(s[i]);
            i += 1;
        } else if s.len() - i > 1 && s[i + 1] == '\'' {
            out.push('\'');
            i += 2;
        } else {
            return Some((out, i + 1));
        }
    }
}

fn read_name(s: &Vec<char>, from: usize) -> (out: usize)
    requires
        from <= s@.len(),
    ensures
        out == name_end(s@, from as int),
        from <= out <= s@.len(),
{
    let mut i: usize = from;
    while i < s.len() && (('0' <= s[i] && s[i] <= '9') || ('a' <= s[i] && s[i] <= 'z') || ('A'
        <= s[i] && s[i] <= 'Z') || s[i] == '_')
        invariant
            from <= i <= s@.len(),
            name_end(s@, from as int) == name_end(s@, i as int),
        decreases s@.len() - i,
    {
        i += 1;
    }
    i
}

fn ev_prim(s: &Vec<char>, i: usize, depth: u32, env: &Env) -> (out: Option<(String, usize, u32)>)
    requires
        i <= s@.len(),
        depth <= 32,
    ensures
        match out {
            Some((v, j, e)) => operand_at(s@, i as int, depth as nat, *env) == Some(
                (v@, j as int, e as nat),
            ) && j <= s@.len() && depth < e <= 32,
            None => operand_at(s@, i as int, depth as nat, *env) is None,
        },
    decreases 33 - depth, 1int,
{
    let k: usize = read_spaces(s, i);
    if depth >= RULE_PATH_MAX_DEPTH || k >= s.len() {
        return None;
    }
    let c: char = s[k];
    if c == '(' {
        match ev_concat(s, k + 1, depth + 1, env) {
            None => None,
            Some((v, j, e)) => {
                let m: usize = read_spaces(s, j);
                if m < s.len() && s[m] == ')' {
                    Some((v, m + 1, e))
                } else {
                    None
                }
            },
        }
    } else if c == '\'' {
        match read_literal(s, k + 1) {
            None => None,
            Some((t, j)) => Some((t, j, depth + 1)),
        }
    } else if c == '$' {
        let head: Vec<char> = chars_of("$env:");
        proof {
            reveal_strlit("$env:");
        }
        if !crate::text::occurs_here(s, &head, k) {
            return None;
        }
        assert(k + 5 <= s.len());
        let e: usize = read_name(s, k + 5);
        if e == k + 5 {
            return None;
        }
        let name: String = string_of(s, k + 5, e);
        let v: String = match env.get(name.as_str()) {
            Some(v) => v,
            None => String::new(),
        };
        assert(env.value(name@) is None ==> v@ =~= Seq::empty());
        Some((v, e, depth + 1))
    } else {
        None
    }
}

fn ev_concat(s: &Vec<char>, i: usize, depth: u32, env: &Env) -> (out: Option<
    (String, usize, u32),
>)
    requires
        i <= s@.len(),
        depth <= 32,
    ensures
        match out {
            Some((v, j, e)) => sum_at(s@, i as int, depth as nat, *env) == Some(
                (v@, j as int, e as nat),
            ) && j <= s@.len() && depth < e <= 32,
            None => sum_at(s@, i as int, depth as nat, *env) is None,
        },
    decreases 33 - depth, 2int,
{
    let (mut acc, mut at, mut d): (String, usize, u32) = match ev_prim(s, i, depth, env) {
        None => return None,
        Some(r) => r,
    };
    loop
        invariant
            at <= s@.len(),
            depth < d <= 32,
            depth <= 32,
            sum_at(s@, i as int, depth as nat, *env) == sum_rest(
                s@,
                at as int,
                d as nat,
                *env,
                acc@,
            ),
        decreases 33 - d,
    {
        let j: usize = read_spaces(s, at);
        if j >= s.len() || s[j] != '+' {
            return Some((acc, at, d));
        }
        match ev_prim(s, j + 1, d, env) {
            None => return None,
            Some((v, k, e)) => {
                acc.append(v.as_str());
                at = k;
                d = e;
            },
        }
    }
}

/// The path that a rule's path expression denotes; `None` where the text is no
/// such expression.
pub fn resolve_rule_path(expr: &str, env: &Env) -> (out: Option<String>)
    ensures
        match out {
            Some(v) => rule_path(expr@, *env) == Some(v@),
            None => rule_path(expr@, *env) is None,
        },
{
    let s: Vec<char> = chars_of(expr);
    match ev_concat(&s, 0, 0, env) {
        None => None,
        Some((v, j, _)) => {
            if read_spaces(&s, j) == s.len() {
                Some(v)
            } else {
                None
            }
        },
    }
}

// ------------------------------------------------------------- joining expressions

/// Whether `t` stands in `s` at `o`, with nothing or a `+` behind it.
spec fn stands(s: Seq<char>, t: Seq<char>, o: int) -> bool {
    &&& 0 <= o
    &&& o + t.len() <= s.len()
    &&& forall|i: int| 0 <= i < t.len() ==> s[o + i] == #[trigger] t[i]
    &&& o + t.len() < s.len() ==> s[o + t.len()] == '+'
}

proof fn lemma_spaces_stand(s: Seq<char>, t: Seq<char>, o: int, i: int)
    requires
        stands(s, t, o),
        0 <= i <= t.len(),
    ensures
        i <= skip_spaces(t, i) <= t.len(),
        skip_spaces(s, o + i) == o + skip_spaces(t, i),
    decreases t.len() - i,
{
    if i < t.len() && space(t[i]) {
        assert(s[o + i] == t[i]);
        lemma_spaces_stand(s, t, o, i + 1);
    } else if i < t.len() {
        assert(s[o + i] == t[i]);
    }
}

proof fn lemma_name_stands(s: Seq<char>, t: Seq<char>, o: int, i: int)
    requires
        stands(s, t, o),
        0 <= i <= t.len(),
    ensures
        i <= name_end(t, i) <= t.len(),
        name_end(s, o + i) == o + name_end(t, i),
    decreases t.len() - i,
{
    if i < t.len() && name_char(t[i]) {
        assert(s[o + i] == t[i]);
        lemma_name_stands(s, t, o, i + 1);
    } else if i < t.len() {
        assert(s[o + i] == t[i]);
    }
}

proof fn lemma_literal_stands(s: Seq<char>, t: Seq<char>, o: int, i: int, before: Seq<char>)
    requires
        stands(s, t, o),
        0 <= i <= t.len(),
        literal_rest(t, i, before) is Some,
    ensures
        literal_rest(t, i, before) matches Some((v, j)) ==> i < j <= t.len() && literal_rest(
            s,
            o + i,
            before,
        ) == Some((v, o + j)),
    decreases t.len() - i,
{
    assert(s[o + i] == t[i]);
    if i + 1 < t.len() {
        assert(s[o + (i + 1)] == t[i + 1]);
    }
    if t[i] != '\'' {
        lemma_literal_stands(s, t, o, i + 1, before.push(t[i]));
    } else if i + 1 < t.len() && t[i + 1] == '\'' {
        lemma_literal_stands(s, t, o, i + 2, before.push('\''));
    }
}

/// An operand is read alike wherever it stands, and counts as many operands.
proof fn lemma_operand_stands(
    s: Seq<char>,
    t: Seq<char>,
    o: int,
    i: int,
    d: nat,
    more: nat,
    env: Env,
)
    requires
        stands(s, t, o),
        0 <= i <= t.len(),
        operand_at(t, i, d, env) matches Some((v, j, e)) && e + more <= 32,
    ensures
        operand_at(t, i, d, env) matches Some((v, j, e)) ==> i <= j <= t.len() && d < e
            && operand_at(s, o + i, d + more, env) == Some((v, o + j, e + more)),
    decreases 33 - d, 1int,
{
    lemma_spaces_stand(s, t, o, i);
    let k = skip_spaces(t, i);
    assert(s[o + k] == t[k]);
    if t[k] == '(' {
        lemma_sum_stands(s, t, o, k + 1, d + 1, more, env);
        let (v, j, e) = sum_at(t, k + 1, d + 1, env)->0;
        lemma_spaces_stand(s, t, o, j);
        let m = skip_spaces(t, j);
        assert(s[o + m] == t[m]);
        assert(sum_rest(s, o + j, e + more, env, v) == Some((v, o + j, e + more)));
        assert(o + (k + 1) == (o + k) + 1);
    } else if t[k] == '\'' {
        lemma_literal_stands(s, t, o, k + 1, Seq::empty());
        assert(o + (k + 1) == (o + k) + 1);
    } else {
        reveal_strlit("$env:");
        lemma_name_stands(s, t, o, k + 5);
        let e = name_end(t, k + 5);
        assert(o + (k + 5) == (o + k) + 5);
        assert(t.subrange(k, k + 5) =~= s.subrange(o + k, o + k + 5)) by {
            assert forall|x: int| 0 <= x < 5 implies #[trigger] t.subrange(k, k + 5)[x]
                == s.subrange(o + k, o + k + 5)[x] by {
                assert(s[o + (k + x)] == t[k + x]);
            }
        }
        assert(t.subrange(k + 5, e) =~= s.subrange(o + k + 5, o + e)) by {
            assert forall|x: int| 0 <= x < e - k - 5 implies #[trigger] t.subrange(k + 5, e)[x]
                == s.subrange(o + k + 5, o + e)[x] by {
                assert(s[o + (k + 5 + x)] == t[k + 5 + x]);
            }
        }
    }
}

/// A sum is read alike wherever it stands; what follows it is read on from there.
proof fn lemma_sum_stands(
    s: Seq<char>,
    t: Seq<char>,
    o: int,
    i: int,
    d: nat,
    more: nat,
    env: Env,
)
    requires
        stands(s, t, o),
        0 <= i <= t.len(),
        sum_at(t, i, d, env) matches Some((v, j, e)) && e + more <= 32,
    ensures
        sum_at(t, i, d, env) matches Some((v, j, e)) ==> i <= j <= t.len() && d < e && sum_at(
            s,
            o + i,
            d + more,
            env,
        ) == sum_rest(s, o + j, e + more, env, v),
    decreases 33 - d, 2int,
{
    let (v, j, e) = operand_at(t, i, d, env)->0;
    lemma_sum_grows(t, j, e, env, v);
    lemma_operand_stands(s, t, o, i, d, more, env);
    lemma_rest_stands(s, t, o, j, e, more, env, Seq::empty(), v);
    assert(Seq::<char>::empty() + v =~= v);
    let w = (sum_at(t, i, d, env)->0).0;
    assert(Seq::<char>::empty() + w =~= w);
}

proof fn lemma_sum_grows(t: Seq<char>, i: int, d: nat, env: Env, before: Seq<char>)
    requires
        sum_rest(t, i, d, env, before) is Some,
    ensures
        sum_rest(t, i, d, env, before) matches Some((v, j, e)) ==> d <= e,
    decreases 33 - d,
{
    let j = skip_spaces(t, i);
    if j < t.len() && t[j] == '+' {
        let (v, k, e) = operand_at(t, j + 1, d, env)->0;
        lemma_sum_grows(t, k, e, env, before + v);
    }
}

proof fn lemma_rest_stands(
    s: Seq<char>,
    t: Seq<char>,
    o: int,
    i: int,
    d: nat,
    more: nat,
    env: Env,
    front: Seq<char>,
    before: Seq<char>,
)
    requires
        stands(s, t, o),
        0 <= i <= t.len(),
        sum_rest(t, i, d, env, before) matches Some((v, j, e)) && e + more <= 32,
    ensures
        sum_rest(t, i, d, env, before) matches Some((v, j, e)) ==> i <= j <= t.len() && d <= e
            && sum_rest(s, o + i, d + more, env, front + before) == sum_rest(
            s,
            o + j,
            e + more,
            env,
            front + v,
        ),
    decreases 33 - d, 2int,
{
    lemma_spaces_stand(s, t, o, i);
    let j = skip_spaces(t, i);
    if j < t.len() && t[j] == '+' {
        assert(s[o + j] == t[j]);
        let (v, k, e) = operand_at(t, j + 1, d, env)->0;
        lemma_sum_grows(t, k, e, env, before + v);
        lemma_operand_stands(s, t, o, j + 1, d, more, env);
        lemma_rest_stands(s, t, o, k, e, more, env, front, before + v);
        assert(front + (before + v) =~= (front + before) + v);
        assert(o + (j + 1) == (o + j) + 1);
    }
}

/// How many operands an expression holds: its variables, literals and brackets.
pub open spec fn operand_count(s: Seq<char>, env: Env) -> nat {
    match sum_at(s, 0, 0, env) {
        Some((_, _, n)) => n,
        None => 0,
    }
}

/// Two expressions joined by `+` denote what the two denote, one behind the other, as
/// long as they do not hold too many operands together.
pub proof fn law_plus_joins(a: Seq<char>, b: Seq<char>, env: Env)
    requires
        rule_path(a, env) is Some,
        rule_path(b, env) is Some,
        operand_count(a, env) + operand_count(b, env) <= RULE_PATH_MAX_DEPTH,
    ensures
        rule_path(a + "+"@ + b, env) == Some(rule_path(a, env)->0 + rule_path(b, env)->0),
        operand_count(a + "+"@ + b, env) == operand_count(a, env) + operand_count(b, env),
{
    reveal_strlit("+");
    let s = a + "+"@ + b;
    let o: int = a.len() as int + 1;
    let (x, ja, ea) = sum_at(a, 0, 0, env)->0;
    let (y, jb, eb) = sum_at(b, 0, 0, env)->0;
    assert(s[a.len() as int] == '+');
    assert(stands(s, a, 0));
    assert(stands(s, b, o));
    lemma_sum_stands(s, a, 0, 0, 0, 0, env);
    lemma_spaces_stand(s, a, 0, ja);
    assert(sum_at(s, 0, 0, env) == sum_rest(s, ja, ea, env, x));
    let (w, k, f) = operand_at(b, 0, 0, env)->0;
    lemma_sum_grows(b, k, f, env, w);
    lemma_operand_stands(s, b, o, 0, 0, ea, env);
    assert(operand_at(s, o, ea, env) == Some((w, o + k, f + ea)));
    assert(sum_rest(s, ja, ea, env, x) == sum_rest(s, o + k, f + ea, env, x + w));
    lemma_rest_stands(s, b, o, k, f, ea, env, x, w);
    lemma_spaces_stand(s, b, o, jb);
    assert(sum_rest(s, o + jb, eb + ea, env, x + y) == Some((x + y, o + jb, eb + ea)));
}

// ----------------------------------------------------------- %NAME% references

/// The first position at or after `i` that holds `%`.
pub open spec fn next_percent(s: Seq<char>, i: int) -> Option<int>
    decreases s.len() - i,
{
    if i < 0 || i >= s.len() {
        None
    } else if s[i] == '%' {
        Some(i)
    } else {
        next_percent(s, i + 1)
    }
}

/// The value that the reference opening at `i` stands for, and the position
/// after the reference; `None` where there is no reference to a set variable.
pub open spec fn reference_at(s: Seq<char>, i: int, env: Env) -> Option<(Seq<char>, int)> {
    match next_percent(s, i + 1) {
        None => None,
        Some(j) => if j == i + 1 {
            None
        } else {
            match env.value(s.subrange(i + 1, j)) {
                Some(v) => if v.len() > 0 {
                    Some((v, j + 1))
                } else {
                    None
                },
                None => None,
            }
        },
    }
}

/// The text from `i` on with its references replaced, put behind `before`. A
/// reference to a variable that is not set, or is empty, stays as it is.
pub open spec fn expanded_rest(s: Seq<char>, i: int, env: Env, before: Seq<char>) -> Seq<char>
    decreases s.len() - i,
{
    if i < 0 || i >= s.len() {
        before
    } else {
        match (s[i] == '%', reference_at(s, i, env)) {
            (true, Some((v, j))) => if i < j <= s.len() {
                expanded_rest(s, j, env, before + v)
            } else {
                before
            },
            _ => expanded_rest(s, i + 1, env, before.push(s[i])),
        }
    }
}

/// A text with its `%NAME%` references replaced.
pub open spec fn expanded(s: Seq<char>, env: Env) -> Seq<char> {
    expanded_rest(s, 0, env, Seq::empty())
}

fn find_percent(s: &Vec<char>, from: usize) -> (out: Option<usize>)
    requires
        from <= s@.len(),
    ensures
        match out {
            Some(j) => next_percent(s@, from as int) == Some(j as int) && from <= j < s@.len(),
            None => next_percent(s@, from as int) is None,
        },
{
    let mut i: usize = from;
    while i < s.len()
        invariant
            from <= i <= s@.len(),
            next_percent(s@, from as int) == next_percent(s@, i as int),
        decreases s@.len() - i,
    {
        if s[i] == '%' {
            return Some(i);
        }
        i += 1;
    }
    None
}

/// Replaces the `%NAME%` references of a path by the variables' values.
pub fn expand_env_path(p: &str, env: &Env) -> (out: String)
    ensures
        out@ == expanded(p@, *env),
{
    let s: Vec<char> = chars_of(p);
    let mut out: String = String::new();
    let mut i: usize = 0;
    assert(out@ =~= Seq::empty());
    while i < s.len()
        invariant
            i <= s@.len(),
            s@ == p@,
            expanded(p@, *env) == expanded_rest(s@, i as int, *env, out@),
        decreases s@.len() - i,
    {
        let mut next: usize = i + 1;
        let mut hit: Option<String> = None;
        if s[i] == '%' {
            match find_percent(&s, i + 1) {
                Some(j) => {
                    if j > i + 1 {
                        let name: String = string_of(&s, i + 1, j);
                        match env.get(name.as_str()) {
                            Some(v) => {
                                if v.as_str().unicode_len() > 0 {
                                    hit = Some(v);
                                    next = j + 1;
                                }
                            },
                            None => {},
                        }
                    }
                },
                None => {},
            }
        }
        match hit {
            Some(v) => {
                out.append(v.as_str());
            },
            None => {
                out.push(s[i]);
            },
        }
        i = next;
    }
    out
}

proof fn lemma_no_percent(s: Seq<char>, i: int, env: Env, before: Seq<char>)
    requires
        !s.contains('%'),
        0 <= i <= s.len(),
    ensures
        expanded_rest(s, i, env, before) == before + s.skip(i),
    decreases s.len() - i,
{
    if i < s.len() {
        assert(s.contains(s[i]));
        lemma_no_percent(s, i + 1, env, before.push(s[i]));
        assert(before.push(s[i]) + s.skip(i + 1) =~= before + s.skip(i));
    } else {
        assert(before + s.skip(i) =~= before);
    }
}

/// A path without `%` is left as it is, whatever the environment holds.
pub proof fn law_plain_path_unchanged(s: Seq<char>, env: Env)
    requires
        !s.contains('%'),
    ensures
        expanded(s, env) == s,
{
    lemma_no_percent(s, 0, env, Seq::empty());
    assert(Seq::<char>::empty() + s.skip(0) =~= s);
}

} // verus!
