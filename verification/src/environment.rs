use vstd::prelude::*;

verus! {

/// Why a configuration value could not be produced: the value is set but
/// is not a boolean word; the value is unset or empty though required; or
/// it is unset or empty, not required, and no default was given.
#[derive(Debug, PartialEq, Eq, Structural)]
pub enum EnvError {
    NotBoolean,
    MissingRequired,
    NoDefault,
}

/// Loads key=value configuration lines from a file. The loader itself only
/// remembers the path; reading the file and publishing the pairs is the
/// caller's business, while `parse_env_line` decides what one line means.
pub struct EnvironmentLoader {
    pub path: String,
}

/// The bytes the line parser strips as whitespace.
pub open spec fn is_env_space(b: u8) -> bool {
    b == 32 || b == 9 || b == 13 || b == 10 || b == 11 || b == 12
}

/// `s` without its leading whitespace.
pub open spec fn trim_front(s: Seq<u8>) -> Seq<u8>
    decreases s.len(),
{
    if s.len() > 0 && is_env_space(s[0]) {
        trim_front(s.drop_first())
    } else {
        s
    }
}

/// `s` without its trailing whitespace.
pub open spec fn trim_back(s: Seq<u8>) -> Seq<u8>
    decreases s.len(),
{
    if s.len() > 0 && is_env_space(s.last()) {
        trim_back(s.drop_last())
    } else {
        s
    }
}

/// `s` without leading and trailing whitespace.
pub open spec fn trim_spec(s: Seq<u8>) -> Seq<u8> {
    trim_back(trim_front(s))
}

/// `s` without its leading `c` bytes.
pub open spec fn strip_front(s: Seq<u8>, c: u8) -> Seq<u8>
    decreases s.len(),
{
    if s.len() > 0 && s[0] == c {
        strip_front(s.drop_first(), c)
    } else {
        s
    }
}

/// `s` without its trailing `c` bytes.
pub open spec fn strip_back(s: Seq<u8>, c: u8) -> Seq<u8>
    decreases s.len(),
{
    if s.len() > 0 && s.last() == c {
        strip_back(s.drop_last(), c)
    } else {
        s
    }
}

/// `s` without leading and trailing `c` bytes.
pub open spec fn strip_ends(s: Seq<u8>, c: u8) -> Seq<u8> {
    strip_back(strip_front(s, c), c)
}

/// The index of the first `=` in `s`, or `-1` when there is none.
pub open spec fn eq_pos(s: Seq<u8>) -> int
    decreases s.len(),
{
    if s.len() == 0 {
        -1
    } else if s[0] == 61 {
        0
    } else {
        let rest = eq_pos(s.drop_first());
        if rest == -1 {
            -1
        } else {
            rest + 1
        }
    }
}

/// `eq_pos` names the first `=`, or `-1` when no byte is one.
pub proof fn lemma_eq_pos(s: Seq<u8>)
    ensures
        eq_pos(s) == -1 ==> forall|j: int| 0 <= j < s.len() ==> s[j] != 61,
        eq_pos(s) != -1 ==> {
            &&& 0 <= eq_pos(s) < s.len()
            &&& s[eq_pos(s)] == 61
            &&& forall|j: int| 0 <= j < eq_pos(s) ==> s[j] != 61
        },
    decreases s.len(),
{
    if s.len() == 0 {
    } else if s[0] == 61 {
    } else {
        lemma_eq_pos(s.drop_first());
        let rest = eq_pos(s.drop_first());
        if rest == -1 {
            assert forall|j: int| 0 <= j < s.len() implies s[j] != 61 by {
                if j > 0 {
                    assert(s.drop_first()[j - 1] == s[j]);
                }
            }
        } else {
            assert(s[rest + 1] == s.drop_first()[rest]);
            assert forall|j: int| 0 <= j < rest + 1 implies s[j] != 61 by {
                if j > 0 {
                    assert(s.drop_first()[j - 1] == s[j]);
                }
            }
        }
    }
}

/// What one line of an env file means: nothing when, after trimming, it is
/// empty or a comment or has no `=`; otherwise the trimmed key left of the
/// first `=` and the trimmed value right of it, with quote characters
/// stripped from the value's ends.
pub open spec fn parsed_env_line(line: Seq<u8>) -> Option<(Seq<u8>, Seq<u8>)> {
    let t = trim_spec(line);
    if t.len() == 0 || t[0] == 35 {
        None
    } else {
        let p = eq_pos(t);
        if p == -1 {
            None
        } else {
            let key = trim_spec(t.subrange(0, p));
            let raw = trim_spec(t.subrange(p + 1, t.len() as int));
            Some((key, strip_ends(strip_ends(raw, 34), 39)))
        }
    }
}

fn is_space_byte(b: u8) -> (r: bool)
    ensures
        r == is_env_space(b),
{
    b == 32 || b == 9 || b == 13 || b == 10 || b == 11 || b == 12
}

/// Strip whitespace from both ends.
fn trim_bytes(v: Vec<u8>) -> (r: Vec<u8>)
    ensures
        r@ == trim_spec(v@),
{
    let mut cur = v;
    let ghost orig = cur@;
    while cur.len() > 0 && is_space_byte(cur[0])
        invariant
            trim_front(cur@) == trim_front(orig),
        decreases cur@.len(),
    {
        let ghost before = cur@;
        cur.remove(0);
        proof {
            assert(cur@ =~= before.drop_first());
        }
    }
    proof {
        assert(cur@ == trim_front(orig));
    }
    let ghost fronted = cur@;
    while cur.len() > 0 && is_space_byte(cur[cur.len() - 1])
        invariant
            trim_back(cur@) == trim_back(fronted),
        decreases cur@.len(),
    {
        let ghost before = cur@;
        cur.pop();
        proof {
            assert(cur@ =~= before.drop_last());
        }
    }
    proof {
        assert(cur@ == trim_back(fronted));
    }
    cur
}

/// Strip `c` from both ends.
fn strip_bytes(v: Vec<u8>, c: u8) -> (r: Vec<u8>)
    ensures
        r@ == strip_ends(v@, c),
{
    let mut cur = v;
    let ghost orig = cur@;
    while cur.len() > 0 && cur[0] == c
        invariant
            strip_front(cur@, c) == strip_front(orig, c),
        decreases cur@.len(),
    {
        let ghost before = cur@;
        cur.remove(0);
        proof {
            assert(cur@ =~= before.drop_first());
        }
    }
    proof {
        assert(cur@ == strip_front(orig, c));
    }
    let ghost fronted = cur@;
    while cur.len() > 0 && cur[cur.len() - 1] == c
        invariant
            strip_back(cur@, c) == strip_back(fronted, c),
        decreases cur@.len(),
    {
        let ghost before = cur@;
        cur.pop();
        proof {
            assert(cur@ =~= before.drop_last());
        }
    }
    proof {
        assert(cur@ == strip_back(fronted, c));
    }
    cur
}

/// Copy `v[a..b]` out.
fn sub_vec(v: &Vec<u8>, a: usize, b: usize) -> (r: Vec<u8>)
    requires
        a <= b <= v@.len(),
    ensures
        r@ == v@.subrange(a as int, b as int),
{
    let mut r: Vec<u8> = Vec::new();
    let mut i: usize = a;
    while i < b
        invariant
            a <= i <= b <= v@.len(),
            r@ == v@.subrange(a as int, i as int),
        decreases b - i,
    {
        r.push(v[i]);
        proof {
            assert(r@ =~= v@.subrange(a as int, i as int + 1));
        }
        i = i + 1;
    }
    r
}

impl EnvironmentLoader {
    pub fn new(path: &str) -> (l: EnvironmentLoader)
        ensures
            l.path@ == path@,
    {
        EnvironmentLoader { path: path.to_owned() }
    }

    /// Read one line of an env file as a key/value pair, exactly as
    /// `parsed_env_line` describes it: blank lines, comments and lines
    /// without `=` carry nothing.
    pub fn parse_env_line(line: &Vec<u8>) -> (r: Option<(Vec<u8>, Vec<u8>)>)
        ensures
            match r {
                None => parsed_env_line(line@) is None,
                Some(kv) => parsed_env_line(line@) == Some((kv.0@, kv.1@)),
            },
    {
        let t = trim_bytes(line.clone());
        if t.len() == 0 || t[0] == 35 {
            return None;
        }
        let mut p: usize = 0;
        let mut found = false;
        loop
            invariant
                p <= t@.len(),
                !found ==> forall|j: int| 0 <= j < p ==> t@[j] != 61,
                found ==> p < t@.len() && t@[p as int] == 61 && forall|j: int|
                    0 <= j < p ==> t@[j] != 61,
            ensures
                found ==> eq_pos(t@) == p as int,
                !found ==> eq_pos(t@) == -1,
            decreases t@.len() - p + (if found {
                0int
            } else {
                1int
            }),
        {
            if found || p == t.len() {
                proof {
                    lemma_eq_pos(t@);
                    let c = eq_pos(t@);
                    if found {
                        if c == -1 {
                            assert(false);
                        } else if c < p as int {
                            assert(t@[c] == 61);
                            assert(false);
                        } else if c > p as int {
                            assert(t@[p as int] != 61);
                            assert(false);
                        }
                    } else {
                        if c != -1 {
                            assert(t@[c] == 61);
                            assert(false);
                        }
                    }
                }
                break ;
            }
            if t[p] == 61 {
                found = true;
            } else {
                p = p + 1;
            }
        }
        if !found {
            return None;
        }
        let key = trim_bytes(sub_vec(&t, 0, p));
        let raw = trim_bytes(sub_vec(&t, p + 1, t.len()));
        let value = strip_bytes(strip_bytes(raw, 34), 39);
        Some((key, value))
    }

    /// The fallback of validation when a value is unset or empty: an error
    /// when the value was required, else the default, else an error for
    /// the missing default.
    pub fn resolve_default<T>(default: Option<T>, required: bool) -> (r: Result<T, EnvError>)
        ensures
            required ==> r == Err::<T, EnvError>(EnvError::MissingRequired),
            !required ==> match default {
                Some(d) => r == Ok::<T, EnvError>(d),
                None => r == Err::<T, EnvError>(EnvError::NoDefault),
            },
    {
        if required {
            Err(EnvError::MissingRequired)
        } else {
            match default {
                Some(d) => Ok(d),
                None => Err(EnvError::NoDefault),
            }
        }
    }

    /// Read a boolean configuration value: a set, non-empty value must be
    /// one of the boolean words, compared without regard to ASCII case;
    /// an unset or empty value falls back as `resolve_default` does.
    pub fn validate_bool(value: Option<Vec<u8>>, default: Option<bool>, required: bool) -> (r:
        Result<bool, EnvError>)
        ensures
            match value {
                Some(v) => {
                    &&& (v@.len() > 0 && truthy_word(v@)) ==> r == Ok::<bool, EnvError>(true)
                    &&& (v@.len() > 0 && falsy_word(v@)) ==> r == Ok::<bool, EnvError>(false)
                    &&& (v@.len() > 0 && !truthy_word(v@) && !falsy_word(v@)) ==> r == Err::<
                        bool,
                        EnvError,
                    >(EnvError::NotBoolean)
                    &&& v@.len() == 0 ==> r == fallback_choice(default, required)
                },
                None => r == fallback_choice(default, required),
            },
    {
        let v = match value {
            Some(v) => v,
            None => {
                return Self::resolve_default(default, required);
            },
        };
        if v.len() == 0 {
            return Self::resolve_default(default, required);
        }
        let l = to_lower_vec(&v);
        proof {
            lemma_bool_words_disjoint(v@);
        }
        if is_truthy_bytes(&l) {
            return Ok(true);
        }
        if is_falsy_bytes(&l) {
            return Ok(false);
        }
        Err(EnvError::NotBoolean)
    }
}

/// What validation answers when the value is unset or empty.
pub open spec fn fallback_choice(default: Option<bool>, required: bool) -> Result<bool, EnvError> {
    if required {
        Err(EnvError::MissingRequired)
    } else {
        match default {
            Some(d) => Ok(d),
            None => Err(EnvError::NoDefault),
        }
    }
}

/// A byte folded to ASCII lower case.
pub open spec fn lower_byte(b: u8) -> u8 {
    if 65 <= b && b <= 90 {
        (b + 32) as u8
    } else {
        b
    }
}

/// A byte string folded to ASCII lower case.
pub open spec fn lower_bytes(s: Seq<u8>) -> Seq<u8> {
    s.map_values(|b: u8| lower_byte(b))
}

/// The words read as `true`, compared in lower case.
pub open spec fn truthy_word(s: Seq<u8>) -> bool {
    ||| lower_bytes(s) == seq![116u8, 114, 117, 101]  // true
    ||| lower_bytes(s) == seq![49u8]  // 1
    ||| lower_bytes(s) == seq![121u8, 101, 115]  // yes
    ||| lower_bytes(s) == seq![111u8, 110]  // on
}

/// The words read as `false`, compared in lower case.
pub open spec fn falsy_word(s: Seq<u8>) -> bool {
    ||| lower_bytes(s) == seq![102u8, 97, 108, 115, 101]  // false
    ||| lower_bytes(s) == seq![48u8]  // 0
    ||| lower_bytes(s) == seq![110u8, 111]  // no
    ||| lower_bytes(s) == seq![111u8, 102, 102]  // off
}

fn to_lower_vec(v: &Vec<u8>) -> (r: Vec<u8>)
    ensures
        r@ == lower_bytes(v@),
{
    let mut r: Vec<u8> = Vec::new();
    let mut i: usize = 0;
    while i < v.len()
        invariant
            i <= v@.len(),
            r@.len() == i,
            forall|j: int| 0 <= j < i ==> r@[j] == lower_byte(v@[j]),
        decreases v@.len() - i,
    {
        let b = v[i];
        if 65 <= b && b <= 90 {
            r.push(b + 32);
        } else {
            r.push(b);
        }
        i = i + 1;
    }
    proof {
        assert(r@ =~= lower_bytes(v@));
    }
    r
}

/// Whether `l`, already folded to lower case, is one of the words read as
/// `true`.
fn is_truthy_bytes(l: &Vec<u8>) -> (r: bool)
    ensures
        r == {
            ||| l@ == seq![116u8, 114, 117, 101]  // true
            ||| l@ == seq![49u8]  // 1
            ||| l@ == seq![121u8, 101, 115]  // yes
            ||| l@ == seq![111u8, 110]  // on

        },
{
    if l.len() == 4 {
        let r = l[0] == 116 && l[1] == 114 && l[2] == 117 && l[3] == 101;
        proof {
            if r {
                assert(l@ =~= seq![116u8, 114, 117, 101]);
            }
        }
        r
    } else if l.len() == 1 {
        let r = l[0] == 49;
        proof {
            if r {
                assert(l@ =~= seq![49u8]);
            }
        }
        r
    } else if l.len() == 3 {
        let r = l[0] == 121 && l[1] == 101 && l[2] == 115;
        proof {
            if r {
                assert(l@ =~= seq![121u8, 101, 115]);
            }
        }
        r
    } else if l.len() == 2 {
        let r = l[0] == 111 && l[1] == 110;
        proof {
            if r {
                assert(l@ =~= seq![111u8, 110]);
            }
        }
        r
    } else {
        false
    }
}

/// Whether `l`, already folded to lower case, is one of the words read as
/// `false`.
fn is_falsy_bytes(l: &Vec<u8>) -> (r: bool)
    ensures
        r == {
            ||| l@ == seq![102u8, 97, 108, 115, 101]  // false
            ||| l@ == seq![48u8]  // 0
            ||| l@ == seq![110u8, 111]  // no
            ||| l@ == seq![111u8, 102, 102]  // off

        },
{
    if l.len() == 5 {
        let r = l[0] == 102 && l[1] == 97 && l[2] == 108 && l[3] == 115 && l[4] == 101;
        proof {
            if r {
                assert(l@ =~= seq![102u8, 97, 108, 115, 101]);
            }
        }
        r
    } else if l.len() == 1 {
        let r = l[0] == 48;
        proof {
            if r {
                assert(l@ =~= seq![48u8]);
            }
        }
        r
    } else if l.len() == 2 {
        let r = l[0] == 110 && l[1] == 111;
        proof {
            if r {
                assert(l@ =~= seq![110u8, 111]);
            }
        }
        r
    } else if l.len() == 3 {
        let r = l[0] == 111 && l[1] == 102 && l[2] == 102;
        proof {
            if r {
                assert(l@ =~= seq![111u8, 102, 102]);
            }
        }
        r
    } else {
        false
    }
}

/// No value reads as `true` and as `false` at once: the two word lists
/// share no word.
pub proof fn lemma_bool_words_disjoint(s: Seq<u8>)
    ensures
        !(truthy_word(s) && falsy_word(s)),
{
    if truthy_word(s) && falsy_word(s) {
        assert(seq![116u8, 114, 117, 101][0] == 116);
        assert(seq![49u8][0] == 49);
        assert(seq![121u8, 101, 115][0] == 121);
        assert(seq![111u8, 110][0] == 111);
        assert(seq![102u8, 97, 108, 115, 101][0] == 102);
        assert(seq![48u8][0] == 48);
        assert(seq![110u8, 111][0] == 110);
        assert(seq![111u8, 102, 102][1] == 102);
        assert(seq![111u8, 110][1] == 110);
        assert(false);
    }
}

} // verus!
