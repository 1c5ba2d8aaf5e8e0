//! Command-line argument handling: a thin layer over `getopts` that feeds
//! the engine a working directory, a bin size and the zero-fill flag. The
//! option-matching itself is the outside crate's work, reached through one
//! trusted exchange whose outcome is a named function of the argument list;
//! every decision made on that outcome (number parsing, validation,
//! defaults, which error is reported) is verified here.

use vstd::prelude::*;
use vstd::string::StrSliceExecFns;

verus! {

/// What matching the fixed option set (`-b`/`--bin-size` with an argument,
/// the flags `-z`/`--with-zeroes` and `-h`/`--help`) against an argument
/// list yields: `None` where the arguments do not match the options,
/// otherwise the `-b` argument text if any, the two flags, and the free
/// (positional) arguments in order. A function of the argument list alone.
pub uninterp spec fn cli_match(args: Seq<Seq<char>>) -> Option<(Option<Seq<char>>, bool, bool, Seq<Seq<char>>)>;

/// The usage text that `getopts` renders for the same fixed option set
/// under the given brief line: a function of the brief line alone.
pub uninterp spec fn usage_text(brief: Seq<char>) -> Seq<char>;

/// The views of a vector of strings.
pub open spec fn views_of_strings(s: Seq<String>) -> Seq<Seq<char>> {
    s.map_values(|x: String| x@)
}

/// Relies on `getopts`: `Options::optopt`/`optflag` to register the fixed
/// option set named above (their literal names satisfy getopts' name
/// validation, so none of these calls can panic), `Options::parse` on the
/// given arguments, and `Matches::opt_str`/`opt_present`/`free` on the
/// registered names only. A match failure is rendered through its
/// `Display`.
#[verifier::external_body]
fn getopts_match(args: &Vec<String>) -> (r: Result<(Option<String>, bool, bool, Vec<String>), String>)
    ensures
        match r {
            Ok(t) => cli_match(views_of_strings(args@)) == Some(
                (
                    match t.0 {
                        Some(b) => Some(b@),
                        None => None::<Seq<char>>,
                    },
                    t.1,
                    t.2,
                    views_of_strings(t.3@),
                ),
            ),
            Err(_) => cli_match(views_of_strings(args@)) is None,
        },
{
    let mut o = getopts::Options::new();
    o.optopt("b", "bin-size", "bin size (default=1)", "");
    o.optflag("z", "with-zeroes", "print out bins w/ zero frequencies");
    o.optflag("h", "help", "print this help message");
    match o.parse(args.as_slice()) {
        Ok(m) => Ok((m.opt_str("b"), m.opt_present("z"), m.opt_present("h"), m.free.clone())),
        Err(e) => Err(e.to_string()),
    }
}

/// Relies on `getopts::Options::usage` over the same fixed option set as
/// `getopts_match` (registered with the same literal, valid names, so the
/// calls cannot panic): the usage text under the given brief line.
#[verifier::external_body]
fn usage_for(brief: &str) -> (r: String)
    ensures
        r@ == usage_text(brief@),
{
    let mut o = getopts::Options::new();
    o.optopt("b", "bin-size", "bin size (default=1)", "");
    o.optflag("z", "with-zeroes", "print out bins w/ zero frequencies");
    o.optflag("h", "help", "print this help message");
    o.usage(brief)
}

/// Relies on `String::push_str`: appends exactly the given text.
#[verifier::external_body]
fn append_str(s: &mut String, t: &str)
    ensures
        final(s)@ == old(s)@ + t@,
{
    s.push_str(t);
}

pub open spec fn is_digit(c: char) -> bool {
    ||| c == '0'
    ||| c == '1'
    ||| c == '2'
    ||| c == '3'
    ||| c == '4'
    ||| c == '5'
    ||| c == '6'
    ||| c == '7'
    ||| c == '8'
    ||| c == '9'
}

pub open spec fn digit_val(c: char) -> int {
    if c == '0' {
        0
    } else if c == '1' {
        1
    } else if c == '2' {
        2
    } else if c == '3' {
        3
    } else if c == '4' {
        4
    } else if c == '5' {
        5
    } else if c == '6' {
        6
    } else if c == '7' {
        7
    } else if c == '8' {
        8
    } else {
        9
    }
}

pub open spec fn all_digits(s: Seq<char>) -> bool {
    s.len() > 0 && forall|k: int| 0 <= k < s.len() ==> is_digit(s[k])
}

/// The number denoted by a digit string, most significant digit first.
pub open spec fn dec_val(s: Seq<char>) -> int
    decreases s.len(),
{
    if s.len() == 0 {
        0
    } else {
        dec_val(s.drop_last()) * 10 + digit_val(s.last())
    }
}

/// At most one leading plus sign is accepted.
pub open spec fn strip_plus(s: Seq<char>) -> Seq<char> {
    if s.len() > 0 && s[0] == '+' {
        s.drop_first()
    } else {
        s
    }
}

/// What parsing an unsigned decimal accepts: after an optional plus sign, a
/// non-empty run of digits whose value fits the machine word.
pub open spec fn parse_usize_spec(s: Seq<char>) -> Option<int> {
    let t = strip_plus(s);
    if all_digits(t) && dec_val(t) <= usize::MAX as int {
        Some(dec_val(t))
    } else {
        None
    }
}

proof fn lemma_dec_val_nonneg(s: Seq<char>)
    ensures
        dec_val(s) >= 0,
    decreases s.len(),
{
    if s.len() > 0 {
        lemma_dec_val_nonneg(s.drop_last());
    }
}

/// A digit string's value only grows as digits are appended.
proof fn lemma_dec_val_take_le(s: Seq<char>, k: int)
    requires
        0 <= k <= s.len(),
    ensures
        dec_val(s.take(k)) <= dec_val(s),
    decreases s.len() - k,
{
    if k < s.len() {
        lemma_dec_val_nonneg(s.take(k));
        assert(s.take(k + 1).drop_last() =~= s.take(k));
        assert(s.take(k + 1).last() == s[k]);
        lemma_dec_val_take_le(s, k + 1);
    } else {
        assert(s.take(k) =~= s);
    }
}

fn digit_of(c: char) -> (r: Option<u8>)
    ensures
        match r {
            Some(d) => is_digit(c) && d < 10 && d as int == digit_val(c),
            None => !is_digit(c),
        },
{
    if c == '0' {
        Some(0)
    } else if c == '1' {
        Some(1)
    } else if c == '2' {
        Some(2)
    } else if c == '3' {
        Some(3)
    } else if c == '4' {
        Some(4)
    } else if c == '5' {
        Some(5)
    } else if c == '6' {
        Some(6)
    } else if c == '7' {
        Some(7)
    } else if c == '8' {
        Some(8)
    } else if c == '9' {
        Some(9)
    } else {
        None
    }
}

/// Parses an unsigned decimal number, rejecting anything that is not an
/// optional plus sign followed by digits, and any value too large for the
/// machine word.
pub fn parse_usize(s: &str) -> (r: Option<usize>)
    ensures
        match r {
            Some(v) => parse_usize_spec(s@) == Some(v as int),
            None => parse_usize_spec(s@) is None,
        },
{
    let n = s.unicode_len();
    let mut start: usize = 0;
    if n > 0 && s.get_char(0) == '+' {
        start = 1;
    }
    let ghost t = strip_plus(s@);
    proof {
        assert(t =~= s@.subrange(start as int, n as int));
    }
    if start >= n {
        return None;
    }
    let mut acc: u128 = 0;
    let mut j = start;
    while j < n
        invariant
            n == s@.len(),
            start < n,
            t == strip_plus(s@),
            start <= j <= n,
            t == s@.subrange(start as int, n as int),
            forall|k: int| start <= k < j ==> is_digit(s@[k]),
            acc as int == dec_val(s@.subrange(start as int, j as int)),
            acc <= usize::MAX as u128,
        decreases n - j,
    {
        let c = s.get_char(j);
        match digit_of(c) {
            None => {
                proof {
                    assert(t[j - start] == s@[j as int]);
                }
                return None;
            },
            Some(d) => {
                proof {
                    assert(s@.subrange(start as int, j + 1).drop_last() =~= s@.subrange(
                        start as int,
                        j as int,
                    ));
                    assert(s@.subrange(start as int, j + 1).last() == s@[j as int]);
                }
                acc = acc * 10 + d as u128;
                if acc > usize::MAX as u128 {
                    proof {
                        if all_digits(t) {
                            assert(t.take(j + 1 - start) =~= s@.subrange(start as int, j + 1));
                            lemma_dec_val_take_le(t, j + 1 - start);
                        }
                    }
                    return None;
                }
            },
        }
        j += 1;
    }
    proof {
        assert(t =~= s@.subrange(start as int, n as int));
        assert forall|k: int| 0 <= k < t.len() implies is_digit(t[k]) by {
            assert(t[k] == s@[start + k]);
        }
        assert(all_digits(t));
    }
    Some(acc as usize)
}

/// The brief line above the usage text, carrying the program name.
pub open spec fn spec_brief(prog: Seq<char>) -> Seq<char> {
    "Usage: "@ + prog + " directory_path [options]"@
}

/// The bin size the matched options select: the default 1 when `-b` is
/// absent, the parsed value when its argument parses to a positive number,
/// and nothing (a configuration error) otherwise.
pub open spec fn spec_bin_choice(bopt: Option<Seq<char>>) -> Option<int> {
    match bopt {
        None => Some(1),
        Some(b) => match parse_usize_spec(b) {
            Some(v) => if v >= 1 {
                Some(v)
            } else {
                None::<int>
            },
            None => None::<int>,
        },
    }
}

pub struct Args {
    args: Vec<String>,
    working_dir: String,
    bin_size: usize,
    includes_zeroes: bool,
}

impl Args {
    pub closed spec fn spec_working_dir(&self) -> Seq<char> {
        self.working_dir@
    }

    /// The raw argument list still carries the program name in front.
    pub closed spec fn has_program_name(&self) -> bool {
        self.args@.len() >= 1
    }

    /// The program name the arguments were invoked under.
    pub closed spec fn spec_prog(&self) -> Seq<char> {
        self.args@[0]@
    }

    /// What matching the options against this argument list (without the
    /// program name) yields.
    pub closed spec fn spec_cli(&self) -> Option<(Option<Seq<char>>, bool, bool, Seq<Seq<char>>)> {
        cli_match(views_of_strings(self.args@.drop_first()))
    }

    pub closed spec fn spec_bin_size(&self) -> int {
        self.bin_size as int
    }

    pub closed spec fn spec_include_zeroes(&self) -> bool {
        self.includes_zeroes
    }

    /// A usable configuration: a positive bin size and a named working
    /// directory.
    pub open spec fn wf(&self) -> bool {
        self.spec_bin_size() >= 1 && self.spec_working_dir().len() > 0
    }

    /// Parses the given command line (program name first). Succeeds exactly
    /// when the options match, the bin size (if given) is a positive
    /// number, help was not requested, and a directory was named; the
    /// configuration then carries the selected bin size (default 1), the
    /// zero-fill flag, and the first free argument as the directory.
    /// Otherwise the error carries the matcher's message, or the stated
    /// diagnostic with the usage text appended, or (for `-h`) the usage
    /// text itself.
    pub fn new(args: Vec<String>) -> (r: Result<Args, String>)
        requires
            args@.len() >= 1,
        ensures
            ({
                let o = cli_match(views_of_strings(args@.drop_first()));
                let ut = usage_text(spec_brief(args@[0]@));
                match r {
                    Ok(a) => match o {
                        None => false,
                        Some(t) => {
                            &&& a.wf()
                            &&& a.has_program_name()
                            &&& spec_bin_choice(t.0) == Some(a.spec_bin_size())
                            &&& !t.2
                            &&& t.3.len() > 0 && t.3[0].len() > 0
                            &&& a.spec_include_zeroes() == t.1
                            &&& a.spec_working_dir() == t.3[0]
                        },
                    },
                    Err(m) => match o {
                        None => true,
                        Some(t) => {
                            if spec_bin_choice(t.0) is None {
                                m@ == "ERROR: bin size must be a positive number!\n"@ + ut
                            } else if t.2 {
                                m@ == ut
                            } else if t.3.len() == 0 || t.3[0].len() == 0 {
                                m@ == "ERROR: Directory '' is empty!\n"@ + ut
                            } else {
                                false
                            }
                        },
                    },
                }
            }),
    {
        let mut a = Args {
            args,
            working_dir: String::new(),
            bin_size: 1,
            includes_zeroes: false,
        };
        match a.validate() {
            Ok(_) => Ok(a),
            Err(e) => Err(e),
        }
    }

    fn validate(&mut self) -> (r: Result<(), String>)
        requires
            old(self).args@.len() >= 1,
            old(self).spec_bin_size() == 1,
            old(self).spec_include_zeroes() == false,
        ensures
            final(self).args@ == old(self).args@,
            ({
                let o = old(self).spec_cli();
                let ut = usage_text(spec_brief(old(self).spec_prog()));
                match r {
                    Ok(_) => match o {
                        None => false,
                        Some(t) => {
                            &&& final(self).wf()
                            &&& spec_bin_choice(t.0) == Some(final(self).spec_bin_size())
                            &&& !t.2
                            &&& t.3.len() > 0 && t.3[0].len() > 0
                            &&& final(self).spec_include_zeroes() == t.1
                            &&& final(self).spec_working_dir() == t.3[0]
                        },
                    },
                    Err(m) => match o {
                        None => true,
                        Some(t) => {
                            if spec_bin_choice(t.0) is None {
                                m@ == "ERROR: bin size must be a positive number!\n"@ + ut
                            } else if t.2 {
                                m@ == ut
                            } else if t.3.len() == 0 || t.3[0].len() == 0 {
                                m@ == "ERROR: Directory '' is empty!\n"@ + ut
                            } else {
                                false
                            }
                        },
                    },
                }
            }),
    {
        let mut tail: Vec<String> = Vec::new();
        let mut i: usize = 1;
        while i < self.args.len()
            invariant
                self == old(self),
                1 <= i <= self.args@.len(),
                tail@.len() == i - 1,
                forall|k: int| 0 <= k < i - 1 ==> tail@[k] == self.args@[k + 1],
            decreases self.args@.len() - i,
        {
            tail.push(self.args[i].clone());
            i += 1;
        }
        proof {
            assert(views_of_strings(tail@) =~= views_of_strings(self.args@.drop_first()));
        }
        let (bopt, zflag, hflag, free) = match getopts_match(&tail) {
            Ok(t) => t,
            Err(e) => {
                return Err(e);
            },
        };
        let ghost bv: Option<Seq<char>> = match bopt {
            Some(ref b) => Some(b@),
            None => None::<Seq<char>>,
        };
        proof {
            assert(old(self).spec_cli() == Some((bv, zflag, hflag, views_of_strings(free@))));
        }
        if let Some(bs) = bopt {
            let parsed = parse_usize(bs.as_str());
            let valid = match parsed {
                Some(v) => v >= 1,
                None => false,
            };
            if !valid {
                let mut msg = String::new();
                append_str(&mut msg, "ERROR: bin size must be a positive number!\n");
                let u = self.usage_message();
                append_str(&mut msg, u.as_str());
                proof {
                    assert(msg@ =~= "ERROR: bin size must be a positive number!\n"@ + u@);
                }
                return Err(msg);
            }
            if let Some(v) = parsed {
                self.bin_size = v;
            }
        }
        if zflag {
            self.includes_zeroes = true;
        }
        if hflag {
            return Err(self.usage_message());
        }
        self.working_dir = if free.len() > 0 {
            free[0].clone()
        } else {
            String::new()
        };
        proof {
            if free@.len() > 0 {
                assert(views_of_strings(free@)[0] == free@[0]@);
            }
        }
        match self.working_dir() {
            Err(e) => Err(e),
            Ok(_) => Ok(()),
        }
    }

    /// The usage text under this invocation's brief line.
    pub fn usage_message(&self) -> (r: String)
        requires
            self.has_program_name(),
        ensures
            r@ == usage_text(spec_brief(self.spec_prog())),
    {
        let mut brief = String::new();
        append_str(&mut brief, "Usage: ");
        append_str(&mut brief, self.args[0].as_str());
        append_str(&mut brief, " directory_path [options]");
        proof {
            assert(brief@ =~= spec_brief(self.spec_prog()));
        }
        usage_for(brief.as_str())
    }

    /// The directory to walk: an error carrying the stated diagnostic and
    /// the usage text when none was given. Whether the path names an
    /// existing directory is for the caller to check before walking it.
    pub fn working_dir(&self) -> (r: Result<String, String>)
        requires
            self.has_program_name(),
        ensures
            r matches Ok(p) ==> p@ == self.spec_working_dir() && self.spec_working_dir().len() > 0,
            r matches Err(m) ==> m@ == "ERROR: Directory '' is empty!\n"@ + usage_text(
                spec_brief(self.spec_prog()),
            ),
            r is Err <==> self.spec_working_dir().len() == 0,
    {
        if self.working_dir.as_str().unicode_len() == 0 {
            let mut msg = String::new();
            append_str(&mut msg, "ERROR: Directory '' is empty!\n");
            let u = self.usage_message();
            append_str(&mut msg, u.as_str());
            proof {
                assert(msg@ =~= "ERROR: Directory '' is empty!\n"@ + u@);
            }
            Err(msg)
        } else {
            Ok(self.working_dir.clone())
        }
    }

    pub fn bin_size(&self) -> (r: usize)
        ensures
            r as int == self.spec_bin_size(),
    {
        self.bin_size
    }

    pub fn include_zeroes(&self) -> (r: bool)
        ensures
            r == self.spec_include_zeroes(),
    {
        self.includes_zeroes
    }
}

} // verus!
