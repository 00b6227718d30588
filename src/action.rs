use vstd::prelude::*;

verus! {

/// A browser command decoded from the model's reply.
#[derive(Debug, Clone, PartialEq, Eq)]
pub enum Action {
    /// Click on the element with the given id.
    Click(u32),
    /// Type the text into the input with the given id, then press ENTER.
    Type(u32, String),
    /// The agent's updated goal.
    Goal(String),
}

/// The mathematical value of an [`Action`].
pub enum ActionModel {
    Click(u32),
    Type(u32, Seq<char>),
    Goal(Seq<char>),
}

impl View for Action {
    type V = ActionModel;

    open spec fn view(&self) -> ActionModel {
        match self {
            Action::Click(id) => ActionModel::Click(*id),
            Action::Type(id, text) => ActionModel::Type(*id, text@),
            Action::Goal(text) => ActionModel::Goal(text@),
        }
    }
}

pub open spec fn is_space(c: char) -> bool {
    c == ' ' || c == '\t' || c == '\n' || c == '\r'
}

pub open spec fn trim_start(s: Seq<char>) -> Seq<char>
    decreases s.len(),
{
    if s.len() > 0 && is_space(s[0]) {
        trim_start(s.drop_first())
    } else {
        s
    }
}

pub open spec fn trim_end(s: Seq<char>) -> Seq<char>
    decreases s.len(),
{
    if s.len() > 0 && is_space(s.last()) {
        trim_end(s.drop_last())
    } else {
        s
    }
}

/// The text without the white space around it.
pub open spec fn trim(s: Seq<char>) -> Seq<char> {
    trim_end(trim_start(s))
}

pub open spec fn is_digit(c: char) -> bool {
    '0' <= c && c <= '9'
}

pub open spec fn digit_value(c: char) -> int {
    c as int - '0' as int
}

pub open spec fn all_digits(s: Seq<char>) -> bool {
    forall|i: int| 0 <= i < s.len() ==> is_digit(#[trigger] s[i])
}

/// The number that a run of decimal digits denotes.
pub open spec fn digits_value(s: Seq<char>) -> int
    decreases s.len(),
{
    if s.len() == 0 {
        0
    } else {
        digits_value(s.drop_last()) * 10 + digit_value(s.last())
    }
}

/// An element id: one or more decimal digits whose value fits in a `u32`.
pub open spec fn parse_id(s: Seq<char>) -> Option<u32> {
    if s.len() > 0 && all_digits(s) && digits_value(s) <= u32::MAX {
        Some(digits_value(s) as u32)
    } else {
        None
    }
}

/// The text between a leading and a trailing double quote.
pub open spec fn unquote(s: Seq<char>) -> Option<Seq<char>> {
    if s.len() >= 2 && s[0] == '"' && s.last() == '"' {
        Some(s.subrange(1, s.len() - 1))
    } else {
        None
    }
}

/// The number of decimal digits at the start of `s`.
pub open spec fn digit_run(s: Seq<char>) -> nat
    decreases s.len(),
{
    if s.len() > 0 && is_digit(s[0]) {
        1 + digit_run(s.drop_first())
    } else {
        0
    }
}

pub open spec fn click_word() -> Seq<char> {
    seq!['C', 'L', 'I', 'C', 'K', ' ']
}

pub open spec fn type_word() -> Seq<char> {
    seq!['T', 'Y', 'P', 'E', ' ']
}

pub open spec fn goal_word() -> Seq<char> {
    seq!['G', 'O', 'A', 'L', ' ']
}

pub open spec fn has_prefix(s: Seq<char>, p: Seq<char>) -> bool {
    p.len() <= s.len() && s.subrange(0, p.len() as int) == p
}

/// The arguments of a TYPE command: `<id> "<text>"`.
pub open spec fn parse_type_args(s: Seq<char>) -> Option<ActionModel> {
    let k = digit_run(s) as int;
    if k < s.len() && s[k] == ' ' {
        match (parse_id(s.subrange(0, k)), unquote(s.subrange(k + 1, s.len() as int))) {
            (Some(id), Some(text)) => Some(ActionModel::Type(id, text)),
            _ => None,
        }
    } else {
        None
    }
}

/// The command that a reply denotes, if it is exactly one of
/// `CLICK <id>`, `TYPE <id> "<text>"` or `GOAL "<text>"`, with white space
/// allowed around it.
pub open spec fn parse_command(reply: Seq<char>) -> Option<ActionModel> {
    let s = trim(reply);
    if has_prefix(s, click_word()) {
        match parse_id(s.subrange(6, s.len() as int)) {
            Some(id) => Some(ActionModel::Click(id)),
            None => None,
        }
    } else if has_prefix(s, type_word()) {
        parse_type_args(s.subrange(5, s.len() as int))
    } else if has_prefix(s, goal_word()) {
        match unquote(s.subrange(5, s.len() as int)) {
            Some(text) => Some(ActionModel::Goal(text)),
            None => None,
        }
    } else {
        None
    }
}


pub open spec fn digit_char(d: nat) -> char {
    ((d + 48) as u8) as char
}

/// The decimal digits of `n`, without leading zeros.
pub open spec fn decimal(n: nat) -> Seq<char>
    decreases n,
{
    if n < 10 {
        seq![digit_char(n)]
    } else {
        decimal(n / 10).push(digit_char(n % 10))
    }
}

/// The reply text that spells a command.
pub open spec fn command_text(a: ActionModel) -> Seq<char> {
    match a {
        ActionModel::Click(id) => click_word() + decimal(id as nat),
        ActionModel::Type(id, text) => type_word() + decimal(id as nat) + (seq![' '] + (seq!['"']
            + text + seq!['"'])),
        ActionModel::Goal(text) => goal_word() + (seq!['"'] + text + seq!['"']),
    }
}

proof fn lemma_digit_char(k: nat)
    requires
        k < 10,
    ensures
        is_digit(digit_char(k)),
        digit_value(digit_char(k)) == k,
{
}

proof fn lemma_decimal(n: nat)
    ensures
        decimal(n).len() > 0,
        all_digits(decimal(n)),
        digits_value(decimal(n)) == n,
    decreases n,
{
    lemma_digit_char(n % 10);
    if n < 10 {
        assert(decimal(n).drop_last() =~= Seq::<char>::empty());
        assert(digits_value(Seq::<char>::empty()) == 0);
    } else {
        lemma_decimal(n / 10);
        assert(decimal(n).last() == digit_char(n % 10));
        assert((n / 10) * 10 + n % 10 == n);
        let d = decimal(n / 10);
        assert(decimal(n).drop_last() =~= d);
        assert forall|i: int| 0 <= i < decimal(n).len() implies is_digit(#[trigger] decimal(n)[i]) by {
            if i < d.len() {
                assert(decimal(n)[i] == d[i]);
            }
        }
    }
}

proof fn lemma_digit_run(d: Seq<char>, rest: Seq<char>)
    requires
        all_digits(d),
        rest.len() > 0,
        !is_digit(rest[0]),
    ensures
        digit_run(d + rest) == d.len(),
    decreases d.len(),
{
    if d.len() > 0 {
        assert((d + rest).drop_first() =~= d.drop_first() + rest);
        assert(is_digit(d[0]));
        assert(all_digits(d.drop_first())) by {
            assert forall|i: int| 0 <= i < d.len() - 1 implies is_digit(#[trigger] d.drop_first()[i]) by {
                assert(is_digit(d[i + 1]));
            }
        }
        lemma_digit_run(d.drop_first(), rest);
    } else {
        assert(d + rest =~= rest);
    }
}

proof fn lemma_trim_unchanged(s: Seq<char>)
    requires
        s.len() > 0,
        !is_space(s[0]),
        !is_space(s.last()),
    ensures
        trim(s) == s,
{
}

proof fn lemma_decode_click(id: u32)
    ensures
        parse_command(command_text(ActionModel::Click(id))) == Some(ActionModel::Click(id)),
{
    let s = command_text(ActionModel::Click(id));
    lemma_decimal(id as nat);
    let d = decimal(id as nat);
    assert(s.last() == d.last());
    assert(is_digit(d[d.len() - 1]));
    lemma_trim_unchanged(s);
    assert(s.subrange(0, 6) =~= click_word());
    assert(s.subrange(6, s.len() as int) =~= d);
}

proof fn lemma_type_args(id: u32, text: Seq<char>)
    ensures
        parse_type_args(decimal(id as nat) + (seq![' '] + (seq!['"'] + text + seq!['"'])))
            == Some(ActionModel::Type(id, text)),
{
    lemma_decimal(id as nat);
    let d = decimal(id as nat);
    let q = seq!['"'] + text + seq!['"'];
    let tail = seq![' '] + q;
    let rest = d + tail;
    lemma_digit_run(d, tail);
    assert(rest[d.len() as int] == ' ');
    assert(rest.subrange(0, d.len() as int) =~= d);
    assert(parse_id(d) == Some(id));
    assert(rest.subrange(d.len() as int + 1, rest.len() as int) =~= q);
    assert(q.subrange(1, text.len() as int + 1) =~= text);
    assert(unquote(q) == Some(text));
}

proof fn lemma_decode_type(id: u32, text: Seq<char>)
    ensures
        parse_command(command_text(ActionModel::Type(id, text))) == Some(
            ActionModel::Type(id, text),
        ),
{
    let s = command_text(ActionModel::Type(id, text));
    let d = decimal(id as nat);
    let rest = d + (seq![' '] + (seq!['"'] + text + seq!['"']));
    assert(s =~= type_word() + rest);
    lemma_trim_unchanged(s);
    assert(trim(s) == s);
    assert(s.subrange(0, 6)[0] != click_word()[0]);
    assert(!has_prefix(s, click_word()));
    assert(s.subrange(0, 5) =~= type_word());
    assert(s.subrange(5, s.len() as int) =~= rest);
    lemma_type_args(id, text);
}

proof fn lemma_decode_goal(text: Seq<char>)
    ensures
        parse_command(command_text(ActionModel::Goal(text))) == Some(ActionModel::Goal(text)),
{
    let s = command_text(ActionModel::Goal(text));
    lemma_trim_unchanged(s);
    assert(s.subrange(0, 6)[0] != click_word()[0]);
    assert(s.subrange(0, 5)[0] != type_word()[0]);
    assert(s.subrange(0, 5) =~= goal_word());
    let q = seq!['"'] + text + seq!['"'];
    assert(s.subrange(5, s.len() as int) =~= q);
    assert(q.subrange(1, text.len() as int + 1) =~= text);
}

/// Decoding the text that spells a command gives that command back.
pub proof fn lemma_decode_command_text(a: ActionModel)
    ensures
        parse_command(command_text(a)) == Some(a),
{
    match a {
        ActionModel::Click(id) => lemma_decode_click(id),
        ActionModel::Type(id, text) => lemma_decode_type(id, text),
        ActionModel::Goal(text) => lemma_decode_goal(text),
    }
}

/// The characters of `s`, in order.
fn chars_of(s: &str) -> (v: Vec<char>)
    ensures
        v@ == s@,
{
    let mut v: Vec<char> = Vec::new();
    for c in it: s.chars()
        invariant
            it.seq() == s@,
            v@ == it.seq().subrange(0, it.index() as int),
    {
        v.push(c);
    }
    v
}


fn is_space_char(c: char) -> (r: bool)
    ensures
        r == is_space(c),
{
    c == ' ' || c == '\t' || c == '\n' || c == '\r'
}

fn is_digit_char(c: char) -> (r: bool)
    ensures
        r == is_digit(c),
{
    '0' <= c && c <= '9'
}

/// The bounds of `v` without the white space around it.
fn trim_bounds(v: &Vec<char>) -> (r: (usize, usize))
    ensures
        r.0 <= r.1 <= v.len(),
        trim(v@) == v@.subrange(r.0 as int, r.1 as int),
{
    let mut lo: usize = 0;
    assert(v@.subrange(0, v.len() as int) =~= v@);
    while lo < v.len() && is_space_char(v[lo])
        invariant
            lo <= v.len(),
            trim_start(v@) == trim_start(v@.subrange(lo as int, v.len() as int)),
        decreases v.len() - lo,
    {
        assert(v@.subrange(lo as int, v.len() as int).drop_first() =~= v@.subrange(
            lo + 1,
            v.len() as int,
        ));
        lo = lo + 1;
    }
    let mut hi: usize = v.len();
    while hi > lo && is_space_char(v[hi - 1])
        invariant
            lo <= hi <= v.len(),
            trim(v@) == trim_end(v@.subrange(lo as int, hi as int)),
        decreases hi,
    {
        assert(v@.subrange(lo as int, hi as int).drop_last() =~= v@.subrange(
            lo as int,
            hi - 1,
        ));
        hi = hi - 1;
    }
    (lo, hi)
}

/// Whether `v[lo..hi]` starts with `word`.
fn has_word(v: &Vec<char>, lo: usize, hi: usize, word: &Vec<char>) -> (r: bool)
    requires
        lo <= hi <= v.len(),
    ensures
        r == has_prefix(v@.subrange(lo as int, hi as int), word@),
{
    if word.len() > hi - lo {
        return false;
    }
    let mut i: usize = 0;
    while i < word.len()
        invariant
            word.len() <= hi - lo,
            lo <= hi <= v.len(),
            i <= word.len(),
            forall|j: int| 0 <= j < i ==> v@[lo + j] == word@[j],
        decreases word.len() - i,
    {
        if v[lo + i] != word[i] {
            assert(v@.subrange(lo as int, hi as int).subrange(0, word.len() as int)[i as int]
                != word@[i as int]);
            return false;
        }
        i = i + 1;
    }
    assert(v@.subrange(lo as int, hi as int).subrange(0, word.len() as int) =~= word@);
    true
}

proof fn lemma_digits_value_nonneg(s: Seq<char>)
    requires
        all_digits(s),
    ensures
        digits_value(s) >= 0,
    decreases s.len(),
{
    if s.len() > 0 {
        assert(is_digit(s[s.len() - 1]));
        assert(all_digits(s.drop_last()) ) by {
            assert forall|i: int| 0 <= i < s.len() - 1 implies is_digit(#[trigger] s.drop_last()[i]) by {
                assert(is_digit(s[i]));
            }
        }
        lemma_digits_value_nonneg(s.drop_last());
    }
}

proof fn lemma_digits_value_prefix(s: Seq<char>, k: int)
    requires
        0 <= k <= s.len(),
        all_digits(s),
    ensures
        digits_value(s.subrange(0, k)) <= digits_value(s),
    decreases s.len() - k,
{
    if k < s.len() {
        let t = s.subrange(0, k + 1);
        assert(t.drop_last() =~= s.subrange(0, k));
        assert(is_digit(s[k]));
        assert(all_digits(s.subrange(0, k))) by {
            assert forall|i: int| 0 <= i < k implies is_digit(#[trigger] s.subrange(0, k)[i]) by {
                assert(is_digit(s[i]));
            }
        }
        lemma_digits_value_nonneg(s.subrange(0, k));
        lemma_digits_value_prefix(s, k + 1);
    } else {
        assert(s.subrange(0, k) =~= s);
    }
}

/// The element id that `v[lo..hi]` spells, if it spells one.
fn parse_id_range(v: &Vec<char>, lo: usize, hi: usize) -> (r: Option<u32>)
    requires
        lo <= hi <= v.len(),
    ensures
        r == parse_id(v@.subrange(lo as int, hi as int)),
{
    let ghost s = v@.subrange(lo as int, hi as int);
    if lo == hi {
        return None;
    }
    let mut acc: u64 = 0;
    let mut i: usize = lo;
    while i < hi
        invariant
            lo <= i <= hi <= v.len(),
            s == v@.subrange(lo as int, hi as int),
            forall|j: int| 0 <= j < i - lo ==> is_digit(#[trigger] s[j]),
            acc == digits_value(s.subrange(0, i - lo)),
            acc <= u32::MAX,
        decreases hi - i,
    {
        let c = v[i];
        if !is_digit_char(c) {
            assert(s[i - lo] == c);
            return None;
        }
        let d: u64 = (c as u64) - ('0' as u64);
        assert(s.subrange(0, i + 1 - lo).drop_last() =~= s.subrange(0, i - lo));
        assert(s[i - lo] == c);
        let next: u64 = acc * 10 + d;
        assert(next == digits_value(s.subrange(0, i + 1 - lo)));
        if next > u32::MAX as u64 {
            proof {
                if all_digits(s) {
                    lemma_digits_value_prefix(s, i + 1 - lo);
                }
            }
            return None;
        }
        acc = next;
        i = i + 1;
    }
    assert(s.subrange(0, hi - lo) =~= s);
    Some(acc as u32)
}

/// The index at which the run of digits that starts at `lo` ends.
fn digit_run_end(v: &Vec<char>, lo: usize, hi: usize) -> (r: usize)
    requires
        lo <= hi <= v.len(),
    ensures
        r == lo + digit_run(v@.subrange(lo as int, hi as int)),
        r <= hi,
{
    let mut i: usize = lo;
    while i < hi && is_digit_char(v[i])
        invariant
            lo <= i <= hi <= v.len(),
            digit_run(v@.subrange(lo as int, hi as int)) == (i - lo) + digit_run(
                v@.subrange(i as int, hi as int),
            ),
        decreases hi - i,
    {
        assert(v@.subrange(i as int, hi as int).drop_first() =~= v@.subrange(i + 1, hi as int));
        i = i + 1;
    }
    i
}

/// The text between the double quotes that open and close `v[lo..hi]`,
/// taken from `s`, whose characters `v` holds.
fn unquote_range(s: &str, v: &Vec<char>, lo: usize, hi: usize) -> (r: Option<String>)
    requires
        v@ == s@,
        lo <= hi <= v.len(),
    ensures
        match r {
            Some(t) => unquote(v@.subrange(lo as int, hi as int)) == Some(t@),
            None => unquote(v@.subrange(lo as int, hi as int)) is None,
        },
{
    if hi - lo >= 2 && v[lo] == '"' && v[hi - 1] == '"' {
        let inner = s.substring_char(lo + 1, hi - 1);
        assert(v@.subrange(lo as int, hi as int).subrange(1, hi - lo - 1) =~= inner@);
        Some(inner.to_owned())
    } else {
        None
    }
}

/// Decodes the model's reply into a command: exactly one of
/// `CLICK <id>`, `TYPE <id> "<text>"` or `GOAL "<text>"`, with white space
/// allowed around it. Any other reply is refused.
pub fn decode_action(reply: &str) -> (r: Option<Action>)
    ensures
        match r {
            Some(a) => parse_command(reply@) == Some(a@),
            None => parse_command(reply@) is None,
        },
{
    let v = chars_of(reply);
    let (lo, hi) = trim_bounds(&v);
    let ghost t = v@.subrange(lo as int, hi as int);
    let click = vec!['C', 'L', 'I', 'C', 'K', ' '];
    let typ = vec!['T', 'Y', 'P', 'E', ' '];
    let goal = vec!['G', 'O', 'A', 'L', ' '];
    assert(click@ =~= click_word());
    assert(typ@ =~= type_word());
    assert(goal@ =~= goal_word());
    if has_word(&v, lo, hi, &click) {
        assert(t.subrange(6, t.len() as int) =~= v@.subrange(lo + 6, hi as int));
        match parse_id_range(&v, lo + 6, hi) {
            Some(id) => Some(Action::Click(id)),
            None => None,
        }
    } else if has_word(&v, lo, hi, &typ) {
        let ghost rest = t.subrange(5, t.len() as int);
        assert(rest =~= v@.subrange(lo + 5, hi as int));
        let k = digit_run_end(&v, lo + 5, hi);
        if k < hi && v[k] == ' ' {
            assert(rest[k - lo - 5] == v[k as int]);
            assert(rest.subrange(0, k - lo - 5) =~= v@.subrange(lo + 5, k as int));
            assert(rest.subrange(k - lo - 5 + 1, rest.len() as int) =~= v@.subrange(
                k + 1,
                hi as int,
            ));
            match (parse_id_range(&v, lo + 5, k), unquote_range(reply, &v, k + 1, hi)) {
                (Some(id), Some(text)) => Some(Action::Type(id, text)),
                _ => None,
            }
        } else {
            None
        }
    } else if has_word(&v, lo, hi, &goal) {
        assert(t.subrange(5, t.len() as int) =~= v@.subrange(lo + 5, hi as int));
        match unquote_range(reply, &v, lo + 5, hi) {
            Some(text) => Some(Action::Goal(text)),
            None => None,
        }
    } else {
        None
    }
}

} // verus!
