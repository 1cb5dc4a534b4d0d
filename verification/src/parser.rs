//! Turns one already-lexed directive — a name token and its raw argument
//! text — into a typed [`AnnotationKind`] or a [`ParseError`].
//!
//! The accepted directive bodies are:
//!
//! ```text
//! type <Process|DataStore|ExternalEntity>
//! display "<name>"
//! flow -> <to>: <label>
//! process <name>
//! ```
//!
//! Parsing is pure: the result is a function of the two input strings alone,
//! stated exactly by [`spec_parse`].

use vstd::prelude::*;

use crate::model::AnnotationKind;
use crate::model::AnnotationKindModel;
use crate::model::EntityType;

verus! {

/// Why a directive body was rejected.
#[derive(Debug, Clone)]
pub enum ParseError {
    /// The directive name is none of `type`, `display`, `flow`, `process`.
    UnknownDirective(String),
    /// The argument of `type` names no entity type.
    UnknownEntityType(String),
    /// The argument of `display` is not a quoted string.
    MalformedDisplayName,
    /// The argument of `flow` is not of the form `-> <to>: <label>` with a
    /// non-empty target and label.
    MalformedFlowDirective,
    /// The argument of `process` is empty.
    MalformedProcessDirective,
}

/// Mathematical view of a [`ParseError`].
#[verifier::ext_equal]
pub enum ParseErrorModel {
    UnknownDirective(Seq<char>),
    UnknownEntityType(Seq<char>),
    MalformedDisplayName,
    MalformedFlowDirective,
    MalformedProcessDirective,
}

impl View for ParseError {
    type V = ParseErrorModel;

    open spec fn view(&self) -> ParseErrorModel {
        match self {
            ParseError::UnknownDirective(name) => ParseErrorModel::UnknownDirective(name@),
            ParseError::UnknownEntityType(name) => ParseErrorModel::UnknownEntityType(name@),
            ParseError::MalformedDisplayName => ParseErrorModel::MalformedDisplayName,
            ParseError::MalformedFlowDirective => ParseErrorModel::MalformedFlowDirective,
            ParseError::MalformedProcessDirective => ParseErrorModel::MalformedProcessDirective,
        }
    }
}

impl PartialEq for ParseError {
    fn eq(&self, other: &Self) -> (r: bool) {
        match (self, other) {
            (ParseError::UnknownDirective(a), ParseError::UnknownDirective(b)) => *a == *b,
            (ParseError::UnknownEntityType(a), ParseError::UnknownEntityType(b)) => *a == *b,
            (ParseError::MalformedDisplayName, ParseError::MalformedDisplayName) => true,
            (ParseError::MalformedFlowDirective, ParseError::MalformedFlowDirective) => true,
            (ParseError::MalformedProcessDirective, ParseError::MalformedProcessDirective) => true,
            _ => false,
        }
    }
}

impl vstd::std_specs::cmp::PartialEqSpecImpl for ParseError {
    open spec fn obeys_eq_spec() -> bool {
        true
    }

    open spec fn eq_spec(&self, other: &Self) -> bool {
        self@ == other@
    }
}

impl Eq for ParseError {}

/// Number of spaces at the front of `s`.
pub open spec fn leading_spaces(s: Seq<char>) -> int
    decreases s.len(),
{
    if s.len() > 0 && s[0] == ' ' {
        1 + leading_spaces(s.drop_first())
    } else {
        0
    }
}

/// Number of spaces at the back of `s`.
pub open spec fn trailing_spaces(s: Seq<char>) -> int
    decreases s.len(),
{
    if s.len() > 0 && s[s.len() - 1] == ' ' {
        1 + trailing_spaces(s.drop_last())
    } else {
        0
    }
}

/// `s` with its leading and trailing spaces removed.
pub open spec fn spec_trim(s: Seq<char>) -> Seq<char> {
    if leading_spaces(s) == s.len() {
        Seq::empty()
    } else {
        s.subrange(leading_spaces(s), s.len() - trailing_spaces(s))
    }
}

/// `leading_spaces(s)` is exactly the length of the space prefix.
proof fn lemma_leading_spaces_is(s: Seq<char>, n: int)
    requires
        0 <= n <= s.len(),
        forall|j: int| 0 <= j < n ==> s[j] == ' ',
        n < s.len() ==> s[n] != ' ',
    ensures
        leading_spaces(s) == n,
    decreases s.len(),
{
    if n == 0 {
    } else {
        let t = s.drop_first();
        assert forall|j: int| 0 <= j < n - 1 implies t[j] == ' ' by {
            assert(t[j] == s[j + 1]);
        }
        lemma_leading_spaces_is(t, n - 1);
    }
}

/// `trailing_spaces(s)` is exactly the length of the space suffix.
proof fn lemma_trailing_spaces_is(s: Seq<char>, m: int)
    requires
        0 <= m <= s.len(),
        forall|j: int| s.len() - m <= j < s.len() ==> s[j] == ' ',
        m < s.len() ==> s[s.len() - m - 1] != ' ',
    ensures
        trailing_spaces(s) == m,
    decreases s.len(),
{
    if m == 0 {
    } else {
        let t = s.drop_last();
        assert forall|j: int| t.len() - (m - 1) <= j < t.len() implies t[j] == ' ' by {
            assert(t[j] == s[j]);
        }
        lemma_trailing_spaces_is(t, m - 1);
    }
}

/// Result of parsing the trimmed argument of a `type` directive.
pub open spec fn spec_parse_type(a: Seq<char>) -> Result<AnnotationKindModel, ParseErrorModel> {
    if a == "Process"@ {
        Ok(AnnotationKindModel::Type { entity_type: EntityType::Process })
    } else if a == "DataStore"@ {
        Ok(AnnotationKindModel::Type { entity_type: EntityType::DataStore })
    } else if a == "ExternalEntity"@ {
        Ok(AnnotationKindModel::Type { entity_type: EntityType::ExternalEntity })
    } else {
        Err(ParseErrorModel::UnknownEntityType(a))
    }
}

/// Result of parsing the trimmed argument of a `display` directive: the
/// text between the surrounding quotes.
pub open spec fn spec_parse_display(a: Seq<char>) -> Result<AnnotationKindModel, ParseErrorModel> {
    if a.len() >= 2 && a[0] == '"' && a[a.len() - 1] == '"' {
        Ok(AnnotationKindModel::Display { display_name: a.subrange(1, a.len() - 1) })
    } else {
        Err(ParseErrorModel::MalformedDisplayName)
    }
}

/// Result of parsing the trimmed argument of a `flow` directive: after a
/// leading `->`, the target up to the first `:` and the label after it,
/// each trimmed and non-empty.
pub open spec fn spec_parse_flow(a: Seq<char>) -> Result<AnnotationKindModel, ParseErrorModel> {
    if a.len() >= 2 && a[0] == '-' && a[1] == '>' {
        let rest = a.subrange(2, a.len() as int);
        match rest.index_of_first(':') {
            Some(k) => {
                let to = spec_trim(rest.subrange(0, k));
                let label = spec_trim(rest.subrange(k + 1, rest.len() as int));
                if to.len() > 0 && label.len() > 0 {
                    Ok(AnnotationKindModel::Flow { to, label })
                } else {
                    Err(ParseErrorModel::MalformedFlowDirective)
                }
            },
            None => Err(ParseErrorModel::MalformedFlowDirective),
        }
    } else {
        Err(ParseErrorModel::MalformedFlowDirective)
    }
}

/// Result of parsing the trimmed argument of a `process` directive.
pub open spec fn spec_parse_process(a: Seq<char>) -> Result<AnnotationKindModel, ParseErrorModel> {
    if a.len() > 0 {
        Ok(AnnotationKindModel::Process { name: a })
    } else {
        Err(ParseErrorModel::MalformedProcessDirective)
    }
}

/// What parsing one directive returns, for every directive name and
/// argument text.
pub open spec fn spec_parse(name: Seq<char>, arg: Seq<char>) -> Result<
    AnnotationKindModel,
    ParseErrorModel,
> {
    if name == "type"@ {
        spec_parse_type(spec_trim(arg))
    } else if name == "display"@ {
        spec_parse_display(spec_trim(arg))
    } else if name == "flow"@ {
        spec_parse_flow(spec_trim(arg))
    } else if name == "process"@ {
        spec_parse_process(spec_trim(arg))
    } else {
        Err(ParseErrorModel::UnknownDirective(name))
    }
}

/// Model of an executable parse result.
pub open spec fn parse_result_model(r: Result<AnnotationKind, ParseError>) -> Result<
    AnnotationKindModel,
    ParseErrorModel,
> {
    match r {
        Ok(kind) => Ok(kind@),
        Err(e) => Err(e@),
    }
}

/// Character-wise string equality.
pub fn str_eq(a: &str, b: &str) -> (r: bool)
    ensures
        r == (a@ == b@),
{
    let na = a.unicode_len();
    let nb = b.unicode_len();
    if na != nb {
        return false;
    }
    let mut i: usize = 0;
    while i < na
        invariant
            0 <= i <= na,
            na == a@.len(),
            na == b@.len(),
            forall|k: int| 0 <= k < i ==> a@[k] == b@[k],
        decreases na - i,
    {
        if a.get_char(i) != b.get_char(i) {
            return false;
        }
        i += 1;
    }
    proof {
        assert(a@ =~= b@);
    }
    true
}

/// `s` without its leading and trailing spaces.
pub fn trim_str<'a>(s: &'a str) -> (r: &'a str)
    ensures
        r@ == spec_trim(s@),
{
    let n = s.unicode_len();
    let mut i: usize = 0;
    while i < n && s.get_char(i) == ' '
        invariant
            0 <= i <= n,
            n == s@.len(),
            forall|k: int| 0 <= k < i ==> s@[k] == ' ',
        decreases n - i,
    {
        i += 1;
    }
    proof {
        lemma_leading_spaces_is(s@, i as int);
    }
    if i == n {
        let r = s.substring_char(n, n);
        proof {
            assert(r@ =~= Seq::<char>::empty());
        }
        return r;
    }
    let mut j: usize = n;
    while j > i && s.get_char(j - 1) == ' '
        invariant
            i < j <= n,
            n == s@.len(),
            i < n,
            s@[i as int] != ' ',
            forall|k: int| j <= k < n ==> s@[k] == ' ',
        decreases j,
    {
        j -= 1;
    }
    proof {
        assert(s@[j - 1] != ' ');
        lemma_trailing_spaces_is(s@, n - j);
    }
    s.substring_char(i, j)
}

/// Index of the first occurrence of `c` in `s`, if any.
fn find_char(s: &str, c: char) -> (r: Option<usize>)
    ensures
        match r {
            Some(k) => k < s@.len() && s@.index_of_first(c) == Some(k as int),
            None => s@.index_of_first(c) is None,
        },
{
    let n = s.unicode_len();
    let mut i: usize = 0;
    while i < n
        invariant
            0 <= i <= n,
            n == s@.len(),
            forall|k: int| 0 <= k < i ==> s@[k] != c,
        decreases n - i,
    {
        if s.get_char(i) == c {
            proof {
                s@.index_of_first_ensures(c);
                if let Some(idx) = s@.index_of_first(c) {
                    assert(s@[idx] == c);
                } else {
                    assert(s@[i as int] != c);
                }
            }
            return Some(i);
        }
        i += 1;
    }
    proof {
        s@.index_of_first_ensures(c);
        if let Some(idx) = s@.index_of_first(c) {
            assert(s@[idx] != c);
        }
    }
    None
}

/// Parses one directive body.  The directive name is matched exactly; the
/// argument is trimmed of surrounding spaces before its form is checked.
pub fn parse_annotation(name: &str, argument: &str) -> (r: Result<AnnotationKind, ParseError>)
    ensures
        parse_result_model(r) == spec_parse(name@, argument@),
{
    if str_eq(name, "type") {
        let a = trim_str(argument);
        if str_eq(a, "Process") {
            Ok(AnnotationKind::Type { entity_type: EntityType::Process })
        } else if str_eq(a, "DataStore") {
            Ok(AnnotationKind::Type { entity_type: EntityType::DataStore })
        } else if str_eq(a, "ExternalEntity") {
            Ok(AnnotationKind::Type { entity_type: EntityType::ExternalEntity })
        } else {
            Err(ParseError::UnknownEntityType(a.to_owned()))
        }
    } else if str_eq(name, "display") {
        let a = trim_str(argument);
        let n = a.unicode_len();
        if n >= 2 && a.get_char(0) == '"' && a.get_char(n - 1) == '"' {
            let inner = a.substring_char(1, n - 1);
            Ok(AnnotationKind::Display { display_name: inner.to_owned() })
        } else {
            Err(ParseError::MalformedDisplayName)
        }
    } else if str_eq(name, "flow") {
        let a = trim_str(argument);
        let n = a.unicode_len();
        if n >= 2 && a.get_char(0) == '-' && a.get_char(1) == '>' {
            let rest = a.substring_char(2, n);
            match find_char(rest, ':') {
                Some(k) => {
                    let to_part = trim_str(rest.substring_char(0, k));
                    let rest_len = rest.unicode_len();
                    let label_part = trim_str(rest.substring_char(k + 1, rest_len));
                    if to_part.unicode_len() > 0 && label_part.unicode_len() > 0 {
                        Ok(AnnotationKind::Flow {
                            to: to_part.to_owned(),
                            label: label_part.to_owned(),
                        })
                    } else {
                        Err(ParseError::MalformedFlowDirective)
                    }
                },
                None => Err(ParseError::MalformedFlowDirective),
            }
        } else {
            Err(ParseError::MalformedFlowDirective)
        }
    } else if str_eq(name, "process") {
        let a = trim_str(argument);
        if a.unicode_len() > 0 {
            Ok(AnnotationKind::Process { name: a.to_owned() })
        } else {
            Err(ParseError::MalformedProcessDirective)
        }
    } else {
        Err(ParseError::UnknownDirective(name.to_owned()))
    }
}

} // verus!
