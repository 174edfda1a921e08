use vstd::prelude::*;
use vstd::string::StrSliceExecFns;
use vstd::string::StringExecFns;

verus! {

// ---------------------------------------------------------------------------
// The model of the argument syntax.
// ---------------------------------------------------------------------------
pub open spec fn has_char(s: Seq<char>, c: char) -> bool {
    exists|j: int| 0 <= j < s.len() && s[j] == c
}

/// Index of the first occurrence of `c` in `s`, or `s.len()` when there is
/// none.
pub open spec fn first_char_idx(s: Seq<char>, c: char) -> int
    decreases s.len(),
{
    if s.len() == 0 {
        0
    } else if s[0] == c {
        0
    } else {
        1 + first_char_idx(s.drop_first(), c)
    }
}

pub open spec fn has_eq(s: Seq<char>) -> bool {
    has_char(s, '=')
}

pub open spec fn first_eq(s: Seq<char>) -> int {
    first_char_idx(s, '=')
}

pub open spec fn starts_dash(s: Seq<char>) -> bool {
    s.len() > 0 && s[0] == '-'
}

/// `s` with every occurrence of `"--"` removed, scanning left to right over
/// non-overlapping matches, as `str::replace` does.
pub open spec fn strip_double_dash(s: Seq<char>) -> Seq<char>
    decreases s.len(),
{
    if s.len() >= 2 && s[0] == '-' && s[1] == '-' {
        strip_double_dash(s.skip(2))
    } else if s.len() == 0 {
        Seq::empty()
    } else {
        seq![s[0]] + strip_double_dash(s.drop_first())
    }
}

/// The value of a `--key=value` argument: the segment between the first `=`
/// and the following `=` or the end.
pub open spec fn eq_value(s: Seq<char>) -> Seq<char> {
    let rest = s.skip(first_eq(s) + 1);
    rest.take(first_char_idx(rest, '='))
}

/// The key/value pairs parsed from `args[i..]`: an argument with a leading
/// dash and a `=` yields its key (dashes stripped) and embedded value; one
/// with a leading dash and no `=` takes the whole next argument as value;
/// anything else parses to nothing of its own.
pub open spec fn parsed_args(args: Seq<Seq<char>>, i: int) -> Seq<(Seq<char>, Seq<char>)>
    decreases args.len() - i,
{
    if i < 0 || i >= args.len() {
        Seq::empty()
    } else {
        let a = args[i];
        let rest = parsed_args(args, i + 1);
        if has_eq(a) {
            if starts_dash(a) {
                seq![(strip_double_dash(a.take(first_eq(a))), eq_value(a))] + rest
            } else {
                rest
            }
        } else if starts_dash(a) {
            seq![(strip_double_dash(a), args[i + 1])] + rest
        } else {
            rest
        }
    }
}

/// The index found by a left-to-right scan is `first_char_idx`.
proof fn lemma_first_char_is(s: Seq<char>, c: char, i: int)
    requires
        0 <= i <= s.len(),
        forall|j: int| 0 <= j < i ==> s[j] != c,
        i < s.len() ==> s[i] == c,
    ensures
        first_char_idx(s, c) == i,
    decreases s.len(),
{
    if s.len() == 0 {
    } else if i == 0 {
    } else {
        assert forall|j: int| 0 <= j < i - 1 implies s.drop_first()[j] != c by {
            assert(s.drop_first()[j] == s[j + 1]);
        }
        assert(i - 1 < s.drop_first().len() ==> s.drop_first()[i - 1] == c);
        lemma_first_char_is(s.drop_first(), c, i - 1);
    }
}

/// The first occurrence index never lies past any occurrence.
proof fn lemma_first_char_le(s: Seq<char>, c: char, j: int)
    requires
        0 <= j < s.len(),
        s[j] == c,
    ensures
        first_char_idx(s, c) <= j,
    decreases s.len(),
{
    if s[0] == c {
    } else {
        assert(s.drop_first()[j - 1] == c);
        lemma_first_char_le(s.drop_first(), c, j - 1);
    }
}

// ---------------------------------------------------------------------------
// The executable parser.
// ---------------------------------------------------------------------------
/// A parsed command line argument.
#[derive(Clone, Debug, PartialEq, Eq)]
pub struct Arg {
    pub key: String,
    pub value: String,
}

pub open spec fn args_view(args: Seq<Arg>) -> Seq<(Seq<char>, Seq<char>)> {
    args.map_values(|a: Arg| (a.key@, a.value@))
}

/// Index of the first occurrence of `c` in `s`, or the character count when
/// there is none.
fn find_char(s: &str, c: char) -> (r: usize)
    ensures
        r as int == first_char_idx(s@, c),
        r <= s@.len(),
        r < s@.len() ==> s@[r as int] == c,
{
    let len = s.unicode_len();
    let mut i: usize = 0;
    while i < len
        invariant
            i <= len,
            len == s@.len(),
            forall|j: int| 0 <= j < i as int ==> s@[j] != c,
        decreases len - i,
    {
        if s.get_char(i) == c {
            proof {
                lemma_first_char_is(s@, c, i as int);
            }
            return i;
        }
        i = i + 1;
    }
    proof {
        lemma_first_char_is(s@, c, len as int);
    }
    len
}

/// `s` with every `"--"` removed, as `str::replace(s, "--", "")` leaves it.
fn strip_double_dash_exec(s: &str) -> (r: String)
    ensures
        r@ == strip_double_dash(s@),
{
    let len = s.unicode_len();
    let mut r = String::new();
    let mut i: usize = 0;
    proof {
        assert(s@.skip(0) =~= s@);
        assert(r@ + strip_double_dash(s@.skip(0)) =~= strip_double_dash(s@));
    }
    while i < len
        invariant
            i <= len,
            len == s@.len(),
            strip_double_dash(s@) == r@ + strip_double_dash(s@.skip(i as int)),
        decreases len - i,
    {
        let ghost rest = s@.skip(i as int);
        proof {
            assert(rest[0] == s@[i as int]);
            if i as int + 1 < len as int {
                assert(rest[1] == s@[i as int + 1]);
            }
        }
        let c = s.get_char(i);
        if c == '-' && i + 1 < len && s.get_char(i + 1) == '-' {
            proof {
                assert(rest.len() >= 2 && rest[0] == '-' && rest[1] == '-');
                assert(rest.skip(2) =~= s@.skip(i as int + 2));
            }
            i = i + 2;
        } else {
            let ghost r_before = r@;
            let ch = s.substring_char(i, i + 1);
            r.append(ch);
            proof {
                assert(!(rest.len() >= 2 && rest[0] == '-' && rest[1] == '-'));
                assert(ch@ =~= seq![s@[i as int]]);
                assert(rest.drop_first() =~= s@.skip(i as int + 1));
                assert(r@ + strip_double_dash(s@.skip(i as int + 1)) =~= r_before + (seq![rest[0]]
                    + strip_double_dash(rest.drop_first())));
            }
            i = i + 1;
        }
    }
    proof {
        assert(s@.skip(len as int) =~= Seq::<char>::empty());
        assert(r@ + strip_double_dash(Seq::<char>::empty()) =~= r@);
    }
    r
}

/// Simple CLI arg parser for values given as `--key value` or `--key=value`;
/// Boolean flags are not supported. An argument with a leading dash and no
/// `=` takes the following argument as its value, so it must not be the
/// last one.
pub fn parse_args(args: Vec<String>) -> (r: Vec<Arg>)
    requires
        forall|k: int|
            0 <= k < args.deep_view().len() && starts_dash(#[trigger] args.deep_view()[k])
                && !has_eq(args.deep_view()[k]) ==> k + 1 < args.deep_view().len(),
    ensures
        args_view(r@) == parsed_args(args.deep_view(), 0),
{
    let ghost av = args.deep_view();
    let mut parsed: Vec<Arg> = Vec::new();
    let mut i: usize = 0;
    proof {
        assert(args_view(parsed@) + parsed_args(av, 0) =~= parsed_args(av, 0));
    }
    while i < args.len()
        invariant
            i <= args@.len(),
            av == args.deep_view(),
            av.len() == args@.len(),
            forall|k: int|
                0 <= k < av.len() && starts_dash(#[trigger] av[k]) && !has_eq(av[k]) ==> k + 1
                    < av.len(),
            parsed_args(av, 0) == args_view(parsed@) + parsed_args(av, i as int),
        decreases args@.len() - i,
    {
        proof {
            assert(av[i as int] == args@[i as int]@);
        }
        let a = &args[i];
        let alen = a.as_str().unicode_len();
        let eq_i = find_char(a.as_str(), '=');
        let ghost parsed_before = parsed@;
        if eq_i < alen {
            proof {
                assert(has_char(a@, '='));
            }
            if alen > 0 && a.as_str().get_char(0) == '-' {
                let key_raw = a.as_str().substring_char(0, eq_i);
                let key = strip_double_dash_exec(key_raw);
                let rest_s = a.as_str().substring_char(eq_i + 1, alen);
                let v_end = find_char(rest_s, '=');
                let value_s = rest_s.substring_char(0, v_end);
                let value = value_s.to_owned();
                proof {
                    assert(key_raw@ =~= a@.take(first_eq(a@)));
                    assert(rest_s@ =~= a@.skip(first_eq(a@) + 1));
                    assert(value@ =~= eq_value(a@));
                }
                parsed.push(Arg { key, value });
                proof {
                    assert(args_view(parsed@) =~= args_view(parsed_before).push(
                        (strip_double_dash(av[i as int].take(first_eq(av[i as int]))), eq_value(
                            av[i as int],
                        )),
                    ));
                    assert(args_view(parsed@) + parsed_args(av, i as int + 1) =~= args_view(
                        parsed_before,
                    ) + parsed_args(av, i as int));
                }
            } else {
                proof {
                    assert(args_view(parsed@) + parsed_args(av, i as int + 1) =~= args_view(
                        parsed_before,
                    ) + parsed_args(av, i as int));
                }
            }
        } else {
            proof {
                assert(first_char_idx(a@, '=') == a@.len());
                assert(!has_char(a@, '=')) by {
                    if has_char(a@, '=') {
                        let j = choose|j: int| 0 <= j < a@.len() && a@[j] == '=';
                        lemma_first_char_le(a@, '=', j);
                    }
                }
            }
            if alen > 0 && a.as_str().get_char(0) == '-' {
                let key = strip_double_dash_exec(a.as_str());
                proof {
                    assert(starts_dash(av[i as int]));
                    assert(i as int + 1 < av.len());
                    assert(av[i as int + 1] == args@[i as int + 1]@);
                }
                let value = args[i + 1].clone();
                parsed.push(Arg { key, value });
                proof {
                    assert(args_view(parsed@) =~= args_view(parsed_before).push(
                        (strip_double_dash(av[i as int]), av[i as int + 1]),
                    ));
                    assert(args_view(parsed@) + parsed_args(av, i as int + 1) =~= args_view(
                        parsed_before,
                    ) + parsed_args(av, i as int));
                }
            } else {
                proof {
                    assert(args_view(parsed@) + parsed_args(av, i as int + 1) =~= args_view(
                        parsed_before,
                    ) + parsed_args(av, i as int));
                }
            }
        }
        i = i + 1;
    }
    proof {
        assert(parsed_args(av, av.len() as int) =~= Seq::<(Seq<char>, Seq<char>)>::empty());
        assert(args_view(parsed@) + parsed_args(av, av.len() as int) =~= args_view(parsed@));
    }
    parsed
}

} // verus!
