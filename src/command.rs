use vstd::prelude::*;

verus! {

/// The views of a sequence of strings.
pub open spec fn views(v: Seq<String>) -> Seq<Seq<char>> {
    v.map_values(|s: String| s@)
}

/// `k` is the position of the first space in `s`.
pub open spec fn is_first_space(s: Seq<char>, k: int) -> bool {
    &&& 0 <= k < s.len()
    &&& s[k] == ' '
    &&& forall|j: int| 0 <= j < k ==> s[j] != ' '
}

pub open spec fn has_space(s: Seq<char>) -> bool {
    exists|k: int| 0 <= k < s.len() && s[k] == ' '
}

/// The tokens that splitty yields for `s`, split on unquoted spaces, with the
/// quotes around a quoted token taken off.
pub uninterp spec fn unquoted_tokens(s: Seq<char>) -> Seq<Seq<char>>;

/// Relies on `splitty::split_unquoted_char(s, ' ').unwrap_quotes(true)`: the
/// tokens depend on the characters of `s` alone, and an empty input yields none.
#[verifier::external_body]
fn split_args(s: &str) -> (r: Vec<String>)
    ensures
        views(r@) == unquoted_tokens(s@),
        s@.len() == 0 ==> r@.len() == 0,
{
    splitty::split_unquoted_char(s, ' ').unwrap_quotes(true).map(|t| t.to_string()).collect()
}

/// Splits a command line at its first space into the program and the rest of
/// the line; the rest is `None` where the line holds no space.
pub fn split_program(command: &str) -> (r: (String, Option<String>))
    ensures
        !has_space(command@) ==> r.0@ == command@ && r.1 is None,
        forall|k: int| #[trigger] is_first_space(command@, k) ==> {
            &&& r.0@ == command@.take(k)
            &&& r.1 is Some
            &&& r.1->Some_0@ == command@.skip(k + 1)
        },
{
    let n = command.unicode_len();
    let mut i: usize = 0;
    while i < n
        invariant
            n == command@.len(),
            i <= n,
            forall|j: int| 0 <= j < i ==> command@[j] != ' ',
        decreases n - i,
    {
        if command.get_char(i) == ' ' {
            let program = command.substring_char(0, i).to_owned();
            let rest = command.substring_char(i + 1, n).to_owned();
            proof {
                assert forall|k: int| #[trigger] is_first_space(command@, k) implies k == i by {
                    if k < i {
                    } else if k > i {
                        assert(command@[i as int] != ' ');
                    }
                }
            }
            return (program, Some(rest));
        }
        i = i + 1;
    }
    assert(command@.take(n as int) =~= command@);
    (command.to_owned(), None)
}

/// Parses a command line into the program (the text before the first space)
/// and its arguments: the rest of the line split on unquoted spaces, a quoted
/// span giving one argument without its quotes. A line without a space is a
/// program with no arguments.
pub fn parse_command(command: &str) -> (r: (String, Vec<String>))
    ensures
        !has_space(command@) ==> r.0@ == command@ && r.1@.len() == 0,
        forall|k: int| #[trigger] is_first_space(command@, k) ==> {
            &&& r.0@ == command@.take(k)
            &&& views(r.1@) == unquoted_tokens(command@.skip(k + 1))
        },
{
    let (program, rest) = split_program(command);
    match rest {
        Some(rest) => {
            let args = split_args(rest.as_str());
            (program, args)
        },
        None => (program, Vec::new()),
    }
}

} // verus!
