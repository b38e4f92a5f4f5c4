//! Format strings of the logging macros: their placeholders, the formatting
//! trait that each one asks for, and the names in the code that a macro call
//! expands to.

use crate::text::{decimal, push_decimal, text_of};
use vstd::prelude::*;
use vstd::utf8::encode_utf8;

verus! {

/// Which formatting trait a placeholder requires.
#[derive(Clone, Copy, Debug, PartialEq, Eq, Structural)]
pub enum FormatTrait {
    Display,
    Debug,
    LowerHex,
    UpperHex,
    Octal,
    Binary,
    LowerExp,
    UpperExp,
    Pointer,
}

/// Parsed info about a single format placeholder.
#[derive(Debug)]
pub struct PlaceholderInfo {
    pub format_trait: FormatTrait,
    /// Content between `{` and `}`, e.g. `""`, `":?"`, `":.2"`, `":#010x"`.
    pub inner: String,
}

/// A placeholder as a value: its trait and the text between its braces.
pub type PlaceholderView = (FormatTrait, Seq<char>);

/// The trait that the last character of a format spec names; Display where
/// there is none or it names none.
pub open spec fn spec_trait(spec: Seq<char>) -> FormatTrait {
    if spec.len() == 0 {
        FormatTrait::Display
    } else if spec.last() == '?' {
        FormatTrait::Debug
    } else if spec.last() == 'x' {
        FormatTrait::LowerHex
    } else if spec.last() == 'X' {
        FormatTrait::UpperHex
    } else if spec.last() == 'o' {
        FormatTrait::Octal
    } else if spec.last() == 'b' {
        FormatTrait::Binary
    } else if spec.last() == 'e' {
        FormatTrait::LowerExp
    } else if spec.last() == 'E' {
        FormatTrait::UpperExp
    } else if spec.last() == 'p' {
        FormatTrait::Pointer
    } else {
        FormatTrait::Display
    }
}

/// Position of the first `c` in `s`, or the length of `s` where it has none.
pub open spec fn first_index(s: Seq<char>, c: char) -> nat
    decreases s.len(),
{
    if s.len() == 0 || s[0] == c {
        0
    } else {
        1 + first_index(s.drop_first(), c)
    }
}

pub open spec fn is_digit(c: char) -> bool {
    '0' <= c <= '9'
}

/// What stands before the colon of a placeholder, or all of it.
pub open spec fn arg_part(inner: Seq<char>) -> Seq<char> {
    inner.take(first_index(inner, ':') as int)
}

/// The message for a placeholder that names its argument, by number or by
/// name.
pub open spec fn rejection(inner: Seq<char>) -> Seq<char> {
    (if forall|i: int| 0 <= i < arg_part(inner).len() ==> is_digit(#[trigger] arg_part(inner)[i]) {
        "explicit indices ({"@
    } else {
        "named arguments ({"@
    }) + inner + "}) not supported in hot-path logging; use positional arguments"@
}

/// Puts placeholders in front of the outcome for the rest of a format string.
pub open spec fn prepend(
    found: Seq<PlaceholderView>,
    rest: Result<Seq<PlaceholderView>, Seq<char>>,
) -> Result<Seq<PlaceholderView>, Seq<char>> {
    match rest {
        Ok(more) => Ok(found + more),
        Err(message) => Err(message),
    }
}

/// The placeholders of a format string, or the message for the first one
/// that is not positional.
///
/// `{{` and `}}` are escapes. Any other `{` opens a placeholder, which ends at
/// the next `}` or with the string.
pub open spec fn scan(fmt: Seq<char>) -> Result<Seq<PlaceholderView>, Seq<char>>
    decreases fmt.len(),
{
    if fmt.len() == 0 {
        Ok(seq![])
    } else if fmt[0] == '{' && fmt.len() > 1 && fmt[1] == '{' {
        scan(fmt.skip(2))
    } else if fmt[0] == '{' {
        let end = first_index(fmt.skip(1), '}');
        let inner = fmt.skip(1).take(end as int);
        let rest = if 1 + end < fmt.len() {
            fmt.skip(2 + end as int)
        } else {
            seq![]
        };
        if arg_part(inner).len() > 0 {
            Err(rejection(inner))
        } else {
            prepend(seq![(spec_trait(inner), inner)], scan(rest))
        }
    } else if fmt[0] == '}' && fmt.len() > 1 && fmt[1] == '}' {
        scan(fmt.skip(2))
    } else {
        scan(fmt.skip(1))
    }
}

/// The views of parsed placeholders.
pub open spec fn placeholder_views(v: Seq<PlaceholderInfo>) -> Seq<PlaceholderView> {
    Seq::new(v.len(), |i: int| (v[i].format_trait, v[i].inner@))
}

/// First index at or after `from` that holds `c`, or the length.
fn find_from(chars: &Vec<char>, from: usize, c: char) -> (at: usize)
    requires
        from <= chars@.len(),
    ensures
        from <= at <= chars@.len(),
        at == from + first_index(chars@.skip(from as int), c),
{
    let mut at: usize = from;
    while at < chars.len() && chars[at] != c
        invariant
            from <= at <= chars@.len(),
            at + first_index(chars@.skip(at as int), c) == from + first_index(
                chars@.skip(from as int),
                c,
            ),
        decreases chars@.len() - at,
    {
        assert(chars@.skip(at as int).drop_first() =~= chars@.skip(at + 1));
        at = at + 1;
    }
    at
}

fn chars_of(s: &str) -> (v: Vec<char>)
    ensures
        v@ == s@,
{
    let mut v: Vec<char> = Vec::new();
    for c in it: s.chars()
        invariant
            v@ =~= it.seq().take(it.index()),
            it.seq() == s@,
    {
        v.push(c);
    }
    v
}

/// Determines the formatting trait from a format spec string.
///
/// The type character is always the last character of the spec (after `:`).
/// If absent or not a recognized type, defaults to Display.
pub fn format_trait_from_spec(spec: &str) -> (t: FormatTrait)
    ensures
        t == spec_trait(spec@),
{
    let n: usize = spec.unicode_len();
    if n == 0 {
        return FormatTrait::Display;
    }
    match spec.get_char(n - 1) {
        '?' => FormatTrait::Debug,
        'x' => FormatTrait::LowerHex,
        'X' => FormatTrait::UpperHex,
        'o' => FormatTrait::Octal,
        'b' => FormatTrait::Binary,
        'e' => FormatTrait::LowerExp,
        'E' => FormatTrait::UpperExp,
        'p' => FormatTrait::Pointer,
        _ => FormatTrait::Display,
    }
}

/// Whether the characters from `from` to `to` are all decimal digits.
fn all_digits(chars: &Vec<char>, from: usize, to: usize) -> (b: bool)
    requires
        from <= to <= chars@.len(),
    ensures
        b == (forall|i: int| from <= i < to ==> is_digit(#[trigger] chars@[i])),
{
    let mut i: usize = from;
    while i < to
        invariant
            from <= i <= to <= chars@.len(),
            forall|k: int| from <= k < i ==> is_digit(#[trigger] chars@[k]),
        decreases to - i,
    {
        if !('0' <= chars[i] && chars[i] <= '9') {
            return false;
        }
        i = i + 1;
    }
    true
}

proof fn lemma_first_index_bound(s: Seq<char>, c: char)
    ensures
        first_index(s, c) <= s.len(),
    decreases s.len(),
{
    if s.len() > 0 && s[0] != c {
        lemma_first_index_bound(s.drop_first(), c);
    }
}

/// A cut behind the first `c` of a longer text keeps where that `c` is.
proof fn lemma_first_index_take(s: Seq<char>, c: char, n: int)
    requires
        0 <= n <= s.len(),
    ensures
        first_index(s.take(n), c) == (if first_index(s, c) < n {
            first_index(s, c)
        } else {
            n as nat
        }),
    decreases s.len(),
{
    if s.len() == 0 || n == 0 {
    } else if s[0] == c {
        assert(s.take(n)[0] == c);
    } else {
        lemma_first_index_take(s.drop_first(), c, n - 1);
        assert(s.take(n).drop_first() =~= s.drop_first().take(n - 1));
    }
}

/// Parses a format string, returning per-placeholder info.
///
/// Handles `{{`/`}}` escapes. Rejects explicit indices and named arguments.
pub fn parse_format_placeholders(fmt: &str) -> (r: Result<Vec<PlaceholderInfo>, String>)
    ensures
        match r {
            Ok(v) => scan(fmt@) == Ok::<Seq<PlaceholderView>, Seq<char>>(placeholder_views(v@)),
            Err(message) => scan(fmt@) == Err::<Seq<PlaceholderView>, Seq<char>>(message@),
        },
{
    let chars: Vec<char> = chars_of(fmt);
    let n: usize = chars.len();
    let mut found: Vec<PlaceholderInfo> = Vec::new();
    let mut i: usize = 0;
    proof {
        assert(fmt@.skip(0) =~= fmt@);
        assert(placeholder_views(found@) =~= seq![]);
        match scan(fmt@) {
            Ok(all) => {
                assert(placeholder_views(found@) + all =~= all);
            },
            Err(_) => {},
        }
    }
    while i < n
        invariant
            chars@ == fmt@,
            n == chars@.len(),
            i <= n,
            scan(fmt@) == prepend(placeholder_views(found@), scan(fmt@.skip(i as int))),
        decreases n - i,
    {
        let ghost rest = fmt@.skip(i as int);
        let ghost before = placeholder_views(found@);
        if chars[i] == '{' {
            if i + 1 < n && chars[i + 1] == '{' {
                assert(rest.skip(2) =~= fmt@.skip(i + 2));
                i = i + 2;
            } else {
                let end: usize = find_from(&chars, i + 1, '}');
                let colon: usize = find_from(&chars, i + 1, ':');
                let cut: usize = if colon < end {
                    colon
                } else {
                    end
                };
                let inner: String = fmt.substring_char(i + 1, end).to_owned();
                proof {
                    assert(rest.skip(1) =~= fmt@.skip(i + 1));
                    lemma_first_index_bound(rest.skip(1), '}');
                    lemma_first_index_take(rest.skip(1), ':', end - i - 1);
                    assert(inner@ =~= rest.skip(1).take(end - i - 1));
                    assert(arg_part(inner@) =~= fmt@.subrange(i + 1, cut as int));
                }
                if cut > i + 1 {
                    let ghost arg = arg_part(inner@);
                    let by_index: bool = all_digits(&chars, i + 1, cut);
                    let mut message: String = if by_index {
                        "explicit indices ({".to_owned()
                    } else {
                        "named arguments ({".to_owned()
                    };
                    message.append(inner.as_str());
                    message.append(
                        "}) not supported in hot-path logging; use positional arguments",
                    );
                    proof {
                        if by_index {
                            assert forall|k: int| 0 <= k < arg.len() implies is_digit(
                                #[trigger] arg[k],
                            ) by {
                                assert(arg[k] == chars@[i + 1 + k]);
                            }
                        } else {
                            let k = choose|k: int| i + 1 <= k < cut && !is_digit(#[trigger] chars@[k]);
                            assert(!is_digit(arg[k - i - 1]));
                        }
                        assert(message@ == rejection(inner@));
                    }
                    return Err(message);
                }
                let format_trait: FormatTrait = format_trait_from_spec(inner.as_str());
                found.push(PlaceholderInfo { format_trait, inner });
                let next: usize = if end < n {
                    end + 1
                } else {
                    n
                };
                proof {
                    let one = seq![(spec_trait(inner@), inner@)];
                    let tail = fmt@.skip(next as int);
                    assert(placeholder_views(found@) =~= before + one);
                    if end < n {
                        assert(rest.skip(2 + (end - i - 1)) =~= tail);
                    } else {
                        assert(tail =~= seq![]);
                    }
                    match scan(tail) {
                        Ok(more) => {
                            assert(before + (one + more) =~= (before + one) + more);
                        },
                        Err(_) => {},
                    }
                }
                i = next;
            }
        } else if chars[i] == '}' && i + 1 < n && chars[i + 1] == '}' {
            assert(rest.skip(2) =~= fmt@.skip(i + 2));
            i = i + 2;
        } else {
            assert(rest.skip(1) =~= fmt@.skip(i + 1));
            i = i + 1;
        }
    }
    assert(fmt@.skip(i as int) =~= seq![]);
    assert(placeholder_views(found@) + seq![] =~= placeholder_views(found@));
    Ok(found)
}

/// Everything that the expansion of a logging macro needs to know of one
/// argument.
pub struct ArgPlan {
    /// Variable that holds a reference to the argument, on the producer side.
    pub value: String,
    /// Variable that holds the argument's encoded size.
    pub size: String,
    /// Variable that carries the argument's type to the consumer side.
    pub witness: String,
    /// Variable that holds the decoded value, on the consumer side.
    pub decoded: String,
    /// Type parameter of the consumer-side formatter.
    pub type_param: String,
    /// Format string with this placeholder alone.
    pub closure_fmt: String,
    /// Formatting trait that the decoded value must have beyond `Debug`.
    pub bound: Option<&'static str>,
}

/// Path of the trait that a decoded value must implement, beyond `Debug`,
/// which every decoded value has.
pub open spec fn bound_path(t: FormatTrait) -> Option<Seq<char>> {
    match t {
        FormatTrait::Debug => None,
        FormatTrait::Display => Some("::std::fmt::Display"@),
        FormatTrait::LowerHex => Some("::std::fmt::LowerHex"@),
        FormatTrait::UpperHex => Some("::std::fmt::UpperHex"@),
        FormatTrait::Octal => Some("::std::fmt::Octal"@),
        FormatTrait::Binary => Some("::std::fmt::Binary"@),
        FormatTrait::LowerExp => Some("::std::fmt::LowerExp"@),
        FormatTrait::UpperExp => Some("::std::fmt::UpperExp"@),
        FormatTrait::Pointer => Some("::std::fmt::Pointer"@),
    }
}

/// The view of an optional string.
pub open spec fn opt_text(s: Option<&'static str>) -> Option<Seq<char>> {
    match s {
        Some(t) => Some(t@),
        None => None,
    }
}

/// The format string that consists of one placeholder.
pub open spec fn single_placeholder(inner: Seq<char>) -> Seq<char> {
    "{"@ + inner + "}"@
}

impl ArgPlan {
    /// The plan is that of argument number `i` with the given placeholder.
    pub open spec fn is_for(self, i: int, placeholder: PlaceholderView) -> bool {
        &&& self.value@ == "__v"@ + decimal(i as nat)
        &&& self.size@ == "__s"@ + decimal(i as nat)
        &&& self.witness@ == "__w"@ + decimal(i as nat)
        &&& self.decoded@ == "__d"@ + decimal(i as nat)
        &&& self.type_param@ == "__T"@ + decimal(i as nat)
        &&& self.closure_fmt@ == single_placeholder(placeholder.1)
        &&& opt_text(self.bound) == bound_path(placeholder.0)
    }
}

/// The message for a format string whose placeholders do not match the
/// arguments.
pub open spec fn count_message(expected: nat, given: nat) -> Seq<char> {
    "format string expects "@ + decimal(expected) + " arguments but "@ + decimal(given)
        + " were provided"@
}

/// Returns the trait path for a non-Debug format trait, or None for Debug
/// (which every decoded value has).
pub fn extra_trait_bound(ft: FormatTrait) -> (path: Option<&'static str>)
    ensures
        opt_text(path) == bound_path(ft),
{
    match ft {
        FormatTrait::Debug => None,
        FormatTrait::Display => Some("::std::fmt::Display"),
        FormatTrait::LowerHex => Some("::std::fmt::LowerHex"),
        FormatTrait::UpperHex => Some("::std::fmt::UpperHex"),
        FormatTrait::Octal => Some("::std::fmt::Octal"),
        FormatTrait::Binary => Some("::std::fmt::Binary"),
        FormatTrait::LowerExp => Some("::std::fmt::LowerExp"),
        FormatTrait::UpperExp => Some("::std::fmt::UpperExp"),
        FormatTrait::Pointer => Some("::std::fmt::Pointer"),
    }
}

/// `n` in decimal.
fn decimal_string(n: usize) -> (s: String)
    ensures
        s@ == decimal(n as nat),
{
    let mut out: Vec<u8> = Vec::new();
    push_decimal(&mut out, n as u64);
    proof {
        assert(out@ =~= encode_utf8(decimal(n as nat)));
        vstd::utf8::encode_utf8_valid_utf8(decimal(n as nat));
        vstd::utf8::encode_utf8_decode_utf8(decimal(n as nat));
    }
    text_of(out.as_slice()).to_owned()
}

fn numbered(prefix: &str, number: &String) -> (s: String)
    ensures
        s@ == prefix@ + number@,
{
    let mut s: String = prefix.to_owned();
    s.append(number.as_str());
    s
}

/// Analyses the format string of a logging macro call with `n_args` arguments
/// and plans the expansion: one entry per argument, or the message of the
/// compile error.
pub fn plan_hot_log(fmt: &str, n_args: usize) -> (r: Result<Vec<ArgPlan>, String>)
    ensures
        match r {
            Ok(plans) => scan(fmt@) matches Ok(found) && found.len() == n_args && plans@.len()
                == n_args && (forall|i: int|
                0 <= i < n_args ==> (#[trigger] plans@[i]).is_for(i, found[i])),
            Err(message) => match scan(fmt@) {
                Ok(found) => found.len() != n_args && message@ == count_message(
                    found.len(),
                    n_args as nat,
                ),
                Err(rejected) => message@ == rejected,
            },
        },
{
    let placeholders: Vec<PlaceholderInfo> = match parse_format_placeholders(fmt) {
        Ok(v) => v,
        Err(message) => return Err(message),
    };
    let ghost found = placeholder_views(placeholders@);
    if placeholders.len() != n_args {
        let mut message: String = "format string expects ".to_owned();
        message.append(decimal_string(placeholders.len()).as_str());
        message.append(" arguments but ");
        message.append(decimal_string(n_args).as_str());
        message.append(" were provided");
        return Err(message);
    }
    let mut plans: Vec<ArgPlan> = Vec::new();
    let mut i: usize = 0;
    while i < n_args
        invariant
            i <= n_args,
            n_args == placeholders@.len(),
            found == placeholder_views(placeholders@),
            plans@.len() == i,
            forall|k: int| 0 <= k < i ==> (#[trigger] plans@[k]).is_for(k, found[k]),
        decreases n_args - i,
    {
        let number: String = decimal_string(i);
        let mut closure_fmt: String = "{".to_owned();
        closure_fmt.append(placeholders[i].inner.as_str());
        closure_fmt.append("}");
        let plan: ArgPlan = ArgPlan {
            value: numbered("__v", &number),
            size: numbered("__s", &number),
            witness: numbered("__w", &number),
            decoded: numbered("__d", &number),
            type_param: numbered("__T", &number),
            closure_fmt,
            bound: extra_trait_bound(placeholders[i].format_trait),
        };
        assert(plan.is_for(i as int, found[i as int]));
        plans.push(plan);
        i = i + 1;
    }
    Ok(plans)
}

/// Every brace doubled.
pub open spec fn escape(s: Seq<char>) -> Seq<char>
    decreases s.len(),
{
    if s.len() == 0 {
        seq![]
    } else if s[0] == '{' || s[0] == '}' {
        seq![s[0], s[0]] + escape(s.drop_first())
    } else {
        seq![s[0]] + escape(s.drop_first())
    }
}

/// A text whose braces are all doubled holds no placeholder, and takes none
/// away from what follows it.
pub proof fn law_escaped_text(s: Seq<char>, rest: Seq<char>)
    ensures
        scan(escape(s) + rest) == scan(rest),
    decreases s.len(),
{
    if s.len() == 0 {
        assert(escape(s) + rest =~= rest);
    } else {
        let tail = escape(s.drop_first());
        law_escaped_text(s.drop_first(), rest);
        if s[0] == '{' || s[0] == '}' {
            assert((escape(s) + rest).skip(2) =~= tail + rest);
        } else {
            assert((escape(s) + rest).skip(1) =~= tail + rest);
        }
    }
}

/// The text of a placeholder: it holds no `}` and does not begin with `{`.
pub open spec fn is_inner(s: Seq<char>) -> bool {
    &&& s.len() > 0 ==> s[0] != '{'
    &&& forall|i: int| 0 <= i < s.len() ==> #[trigger] s[i] != '}'
}

proof fn lemma_first_index_absent(s: Seq<char>, c: char)
    requires
        forall|i: int| 0 <= i < s.len() ==> #[trigger] s[i] != c,
    ensures
        first_index(s, c) == s.len(),
    decreases s.len(),
{
    if s.len() > 0 {
        assert forall|i: int| 0 <= i < s.drop_first().len() implies #[trigger] s.drop_first()[i]
            != c by {
            assert(s.drop_first()[i] == s[i + 1]);
        }
        lemma_first_index_absent(s.drop_first(), c);
    }
}

proof fn lemma_first_index_clear(s: Seq<char>, c: char)
    ensures
        forall|i: int| 0 <= i < first_index(s, c) && i < s.len() ==> #[trigger] s[i] != c,
    decreases s.len(),
{
    if s.len() > 0 && s[0] != c {
        lemma_first_index_clear(s.drop_first(), c);
        assert forall|i: int| 0 <= i < first_index(s, c) && i < s.len() implies #[trigger] s[i]
            != c by {
            if i > 0 {
                assert(s[i] == s.drop_first()[i - 1]);
            }
        }
    }
}

/// Each placeholder that a format string yields has a text of that form, no
/// argument name or number, and the trait of its last character.
pub proof fn law_placeholders_positional(fmt: Seq<char>)
    ensures
        scan(fmt) matches Ok(found) ==> forall|i: int|
            0 <= i < found.len() ==> is_inner((#[trigger] found[i]).1) && arg_part(
                found[i].1,
            ).len() == 0 && found[i].0 == spec_trait(found[i].1),
    decreases fmt.len(),
{
    if fmt.len() == 0 {
    } else if fmt[0] == '{' && fmt.len() > 1 && fmt[1] == '{' {
        law_placeholders_positional(fmt.skip(2));
    } else if fmt[0] == '{' {
        let end = first_index(fmt.skip(1), '}');
        let inner = fmt.skip(1).take(end as int);
        let rest = if 1 + end < fmt.len() {
            fmt.skip(2 + end as int)
        } else {
            seq![]
        };
        lemma_first_index_bound(fmt.skip(1), '}');
        lemma_first_index_clear(fmt.skip(1), '}');
        law_placeholders_positional(rest);
        if arg_part(inner).len() == 0 {
            assert forall|i: int| 0 <= i < inner.len() implies #[trigger] inner[i] != '}' by {
                assert(inner[i] == fmt.skip(1)[i]);
            }
            assert(is_inner(inner)) by {
                if inner.len() > 0 {
                    assert(inner[0] == fmt[1]);
                }
            }
            match scan(rest) {
                Ok(more) => {
                    let found = seq![(spec_trait(inner), inner)] + more;
                    assert forall|i: int| 0 <= i < found.len() implies is_inner(
                        (#[trigger] found[i]).1,
                    ) && arg_part(found[i].1).len() == 0 && found[i].0 == spec_trait(
                        found[i].1,
                    ) by {
                        if i > 0 {
                            assert(found[i] == more[i - 1]);
                        }
                    }
                },
                Err(_) => {},
            }
        }
    } else if fmt[0] == '}' && fmt.len() > 1 && fmt[1] == '}' {
        law_placeholders_positional(fmt.skip(2));
    } else {
        law_placeholders_positional(fmt.skip(1));
    }
}

/// The producer formats an argument with the placeholder taken out of the
/// format string; that text has this one placeholder and asks for the same
/// trait.
pub proof fn law_closure_format(inner: Seq<char>)
    requires
        is_inner(inner),
        arg_part(inner).len() == 0,
    ensures
        scan(single_placeholder(inner)) == Ok::<Seq<PlaceholderView>, Seq<char>>(
            seq![(spec_trait(inner), inner)],
        ),
{
    reveal_strlit("{");
    reveal_strlit("}");
    let fmt = single_placeholder(inner);
    let tail = fmt.skip(1);
    assert(tail =~= inner.push('}'));
    lemma_first_index_absent(inner, '}');
    assert(tail.take(inner.len() as int) =~= inner);
    lemma_first_index_take(tail, '}', inner.len() as int);
    assert(first_index(tail, '}') == inner.len()) by {
        lemma_first_index_clear(tail, '}');
        lemma_first_index_bound(tail, '}');
        if first_index(tail, '}') > inner.len() {
            assert(tail[inner.len() as int] == '}');
        }
    }
    assert(fmt.skip(2 + inner.len() as int) =~= seq![]);
    assert(seq![(spec_trait(inner), inner)] + seq![] =~= seq![(spec_trait(inner), inner)]);
    if inner.len() > 0 {
        assert(fmt[1] == inner[0]);
    }
    assert(scan(seq![]) == Ok::<Seq<PlaceholderView>, Seq<char>>(seq![]));
}

/// Where the first `c` of a text stands, given by what comes before and behind
/// it.
proof fn lemma_first_index_at(front: Seq<char>, c: char, rest: Seq<char>)
    requires
        forall|i: int| 0 <= i < front.len() ==> #[trigger] front[i] != c,
    ensures
        first_index(front + seq![c] + rest, c) == front.len(),
    decreases front.len(),
{
    let s = front + seq![c] + rest;
    if front.len() > 0 {
        assert(s.drop_first() =~= front.drop_first() + seq![c] + rest);
        assert forall|i: int| 0 <= i < front.drop_first().len() implies #[trigger] front.drop_first()[i]
            != c by {
            assert(front.drop_first()[i] == front[i + 1]);
        }
        lemma_first_index_at(front.drop_first(), c, rest);
    }
}

/// A format string without characters has no placeholders.
pub proof fn law_no_text()
    ensures
        scan(seq![]) == Ok::<Seq<PlaceholderView>, Seq<char>>(seq![]),
{
}

/// Text without braces holds no placeholder, wherever it stands, and what
/// follows it counts in full.
pub proof fn law_plain_text(s: Seq<char>, rest: Seq<char>)
    requires
        forall|i: int| 0 <= i < s.len() ==> #[trigger] s[i] != '{' && s[i] != '}',
    ensures
        scan(s + rest) == scan(rest),
    decreases s.len(),
{
    if s.len() == 0 {
        assert(s + rest =~= rest);
    } else {
        assert forall|i: int| 0 <= i < s.drop_first().len() implies #[trigger] s.drop_first()[i]
            != '{' && s.drop_first()[i] != '}' by {
            assert(s.drop_first()[i] == s[i + 1]);
        }
        law_plain_text(s.drop_first(), rest);
        assert((s + rest).skip(1) =~= s.drop_first() + rest);
    }
}

/// A doubled brace is an escape, and so is no placeholder; a closing brace by
/// itself is text. What follows counts in full.
pub proof fn law_braces(rest: Seq<char>)
    ensures
        scan(seq!['{', '{'] + rest) == scan(rest),
        scan(seq!['}', '}'] + rest) == scan(rest),
        rest.len() == 0 || rest[0] != '}' ==> scan(seq!['}'] + rest) == scan(rest),
{
    assert((seq!['{', '{'] + rest).skip(2) =~= rest);
    assert((seq!['}', '}'] + rest).skip(2) =~= rest);
    assert((seq!['}'] + rest).skip(1) =~= rest);
}

/// What comes behind a placeholder counts in full: its placeholders follow this
/// one, whatever they are, and a rejection of the rest rejects the whole. The
/// placeholder's text is empty or begins with a colon.
pub proof fn law_placeholder_then_rest(inner: Seq<char>, rest: Seq<char>)
    requires
        forall|i: int| 0 <= i < inner.len() ==> #[trigger] inner[i] != '}',
        inner.len() > 0 ==> inner[0] == ':',
    ensures
        scan(seq!['{'] + inner + seq!['}'] + rest) == (match scan(rest) {
            Ok(more) => Ok::<Seq<PlaceholderView>, Seq<char>>(
                seq![(spec_trait(inner), inner)] + more,
            ),
            Err(message) => Err(message),
        }),
{
    let fmt = seq!['{'] + inner + seq!['}'] + rest;
    assert(fmt.skip(1) =~= inner + seq!['}'] + rest);
    lemma_first_index_at(inner, '}', rest);
    assert(fmt.skip(1).take(inner.len() as int) =~= inner);
    assert(fmt.skip(2 + inner.len() as int) =~= rest);
    assert(arg_part(inner).len() == 0);
    if inner.len() > 0 {
        assert(fmt[1] == inner[0]);
    } else {
        assert(fmt[1] == '}');
    }
}

/// A placeholder that is not closed ends with the format string.
pub proof fn law_open_placeholder(inner: Seq<char>)
    requires
        forall|i: int| 0 <= i < inner.len() ==> #[trigger] inner[i] != '}',
        inner.len() > 0 ==> inner[0] == ':',
    ensures
        scan(seq!['{'] + inner) == Ok::<Seq<PlaceholderView>, Seq<char>>(
            seq![(spec_trait(inner), inner)],
        ),
{
    let fmt = seq!['{'] + inner;
    assert(fmt.skip(1) =~= inner);
    lemma_first_index_absent(inner, '}');
    assert(inner.take(inner.len() as int) =~= inner);
    assert(arg_part(inner).len() == 0);
    assert(seq![(spec_trait(inner), inner)] + seq![] =~= seq![(spec_trait(inner), inner)]);
    assert(scan(seq![]) == Ok::<Seq<PlaceholderView>, Seq<char>>(seq![]));
    if inner.len() > 0 {
        assert(fmt[1] == inner[0]);
    }
}

/// A placeholder that names its argument, in its first `n` characters, is
/// rejected, closed or not and whatever follows it: as an index where all of
/// those are decimal digits, else as a name.
pub proof fn law_named_placeholder(inner: Seq<char>, n: int, closed: bool, rest: Seq<char>)
    requires
        forall|i: int| 0 <= i < inner.len() ==> #[trigger] inner[i] != '}',
        0 < n <= inner.len(),
        inner[0] != '{',
        forall|i: int| 0 <= i < n ==> #[trigger] inner[i] != ':',
        n < inner.len() ==> inner[n] == ':',
    ensures
        ({
            let fmt = if closed {
                seq!['{'] + inner + seq!['}'] + rest
            } else {
                seq!['{'] + inner
            };
            let kind = if forall|i: int| 0 <= i < n ==> '0' <= #[trigger] inner[i] <= '9' {
                "explicit indices ({"@
            } else {
                "named arguments ({"@
            };
            scan(fmt) == Err::<Seq<PlaceholderView>, Seq<char>>(
                kind + inner + "}) not supported in hot-path logging; use positional arguments"@,
            )
        }),
{
    let fmt = if closed {
        seq!['{'] + inner + seq!['}'] + rest
    } else {
        seq!['{'] + inner
    };
    if closed {
        assert(fmt.skip(1) =~= inner + seq!['}'] + rest);
        lemma_first_index_at(inner, '}', rest);
    } else {
        assert(fmt.skip(1) =~= inner);
        lemma_first_index_absent(inner, '}');
    }
    assert(fmt.skip(1).take(inner.len() as int) =~= inner);
    assert(fmt[1] == inner[0]);
    let front = inner.take(n);
    assert(first_index(inner, ':') == n) by {
        if n < inner.len() {
            assert(inner =~= front + seq![':'] + inner.skip(n + 1));
            assert forall|i: int| 0 <= i < front.len() implies #[trigger] front[i] != ':' by {
                assert(front[i] == inner[i]);
            }
            lemma_first_index_at(front, ':', inner.skip(n + 1));
        } else {
            lemma_first_index_absent(inner, ':');
        }
    }
    assert(arg_part(inner) =~= front);
    if forall|i: int| 0 <= i < n ==> '0' <= #[trigger] inner[i] <= '9' {
        assert forall|i: int| 0 <= i < front.len() implies is_digit(#[trigger] front[i]) by {
            assert(front[i] == inner[i]);
        }
    } else {
        let i = choose|i: int| 0 <= i < n && !('0' <= #[trigger] inner[i] <= '9');
        assert(!is_digit(front[i]));
    }
}

/// The trait that a placeholder asks for goes by the last character of its
/// text, and is Display where that names none.
pub proof fn law_trait_by_last_character(front: Seq<char>, c: char)
    ensures
        spec_trait(seq![]) == FormatTrait::Display,
        spec_trait(front.push(c)) == FormatTrait::Debug <==> c == '?',
        spec_trait(front.push(c)) == FormatTrait::LowerHex <==> c == 'x',
        spec_trait(front.push(c)) == FormatTrait::UpperHex <==> c == 'X',
        spec_trait(front.push(c)) == FormatTrait::Octal <==> c == 'o',
        spec_trait(front.push(c)) == FormatTrait::Binary <==> c == 'b',
        spec_trait(front.push(c)) == FormatTrait::LowerExp <==> c == 'e',
        spec_trait(front.push(c)) == FormatTrait::UpperExp <==> c == 'E',
        spec_trait(front.push(c)) == FormatTrait::Pointer <==> c == 'p',
{
}

/// The bounds that the traits ask for: each its own trait of `std::fmt`, and
/// Debug none.
pub proof fn law_trait_bounds()
    ensures
        bound_path(FormatTrait::Debug) is None,
        bound_path(FormatTrait::Display) == Some("::std::fmt::Display"@),
        bound_path(FormatTrait::LowerHex) == Some("::std::fmt::LowerHex"@),
        bound_path(FormatTrait::UpperHex) == Some("::std::fmt::UpperHex"@),
        bound_path(FormatTrait::Octal) == Some("::std::fmt::Octal"@),
        bound_path(FormatTrait::Binary) == Some("::std::fmt::Binary"@),
        bound_path(FormatTrait::LowerExp) == Some("::std::fmt::LowerExp"@),
        bound_path(FormatTrait::UpperExp) == Some("::std::fmt::UpperExp"@),
        bound_path(FormatTrait::Pointer) == Some("::std::fmt::Pointer"@),
{
}

/// What a plan says of argument `i`: its variables bear its number, its format
/// string is its placeholder alone, and its bound is that of its trait.
pub proof fn law_plan_of_argument(plan: ArgPlan, i: nat, t: FormatTrait, inner: Seq<char>)
    requires
        plan.is_for(i as int, (t, inner)),
    ensures
        plan.value@ == seq!['_', '_', 'v'] + decimal(i),
        plan.size@ == seq!['_', '_', 's'] + decimal(i),
        plan.witness@ == seq!['_', '_', 'w'] + decimal(i),
        plan.decoded@ == seq!['_', '_', 'd'] + decimal(i),
        plan.type_param@ == seq!['_', '_', 'T'] + decimal(i),
        plan.closure_fmt@ == seq!['{'] + inner + seq!['}'],
        plan.bound is None <==> bound_path(t) is None,
        plan.bound matches Some(path) ==> bound_path(t) == Some(path@),
{
    reveal_strlit("__v");
    reveal_strlit("__s");
    reveal_strlit("__w");
    reveal_strlit("__d");
    reveal_strlit("__T");
    reveal_strlit("{");
    reveal_strlit("}");
    assert("__v"@ =~= seq!['_', '_', 'v']);
    assert("__s"@ =~= seq!['_', '_', 's']);
    assert("__w"@ =~= seq!['_', '_', 'w']);
    assert("__d"@ =~= seq!['_', '_', 'd']);
    assert("__T"@ =~= seq!['_', '_', 'T']);
    assert(plan.closure_fmt@ =~= seq!['{'] + inner + seq!['}']);
}

/// The message for a wrong number of arguments names both numbers.
pub proof fn law_count_message(expected: nat, given: nat)
    ensures
        count_message(expected, given) == "format string expects "@ + decimal(expected)
            + " arguments but "@ + decimal(given) + " were provided"@,
{
}

/// Parsed placeholders are seen by their traits and texts, one by one.
pub proof fn law_placeholder_views(v: Seq<PlaceholderInfo>, i: int)
    ensures
        placeholder_views(v).len() == v.len(),
        0 <= i < v.len() ==> placeholder_views(v)[i].0 == v[i].format_trait
            && placeholder_views(v)[i].1 == v[i].inner@,
{
}

/// An optional text is there where it is.
pub proof fn law_opt_text(t: &'static str)
    ensures
        opt_text(Some(t)) == Some(t@),
        opt_text(None) is None,
{
}

}
