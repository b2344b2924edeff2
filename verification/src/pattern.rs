//! File-set patterns: a directory plus a filename template holding a `*`
//! wildcard, and the construction of concrete timestamped file paths.

use vstd::prelude::*;
use crate::strutil::{
    rfind, lemma_rfind, rfind_char, contains_char, push_chars, push_str_chars, string_from_chars,
};
use crate::render::{spec_hex16, spec_pad2, spec_pad4, push_hex16, push_pad2, push_pad4};
use crate::timestamp::{Timestamp, civil_from_unix, civil_of_unix};

verus! {

/// How the wildcard of a filename template is filled in.
#[derive(Copy, Clone)]
pub enum FilenameFormat {
    /// The Unix seconds as 16 lowercase hexadecimal digits, zero-padded.
    Timestamp,
    /// The UTC civil time as `YYYY-MM-DDTHH_MM_SSZ`.
    Readable,
}

/// Why a file-set pattern was rejected.
#[derive(Debug, Copy, Clone, PartialEq, Eq, Structural)]
pub enum PatternError {
    /// The pattern holds no directory separator, so no parent directory.
    NoDirectory,
    /// The filename template holds no `*` wildcard.
    NoWildcard,
}

/// The directory part of a pattern: everything before the last `/`, or `/`
/// itself when the last `/` opens the pattern.
pub open spec fn spec_dir_of(p: Seq<char>) -> Seq<char> {
    if rfind(p, '/') == 0 {
        seq!['/']
    } else {
        p.take(rfind(p, '/'))
    }
}

/// The filename-template part of a pattern: everything after the last `/`.
pub open spec fn spec_template_of(p: Seq<char>) -> Seq<char> {
    p.skip(rfind(p, '/') + 1)
}

/// `dir` with exactly one trailing `/`.
pub open spec fn spec_dir_slash(dir: Seq<char>) -> Seq<char> {
    if dir.len() > 0 && dir.last() == '/' {
        dir
    } else {
        dir + seq!['/']
    }
}

/// `name` joined onto `dir` with a single separator between them.
pub open spec fn spec_joined(dir: Seq<char>, name: Seq<char>) -> Seq<char> {
    spec_dir_slash(dir) + name
}

/// `s` with every occurrence of `c` replaced by `sub`.
pub open spec fn replace_char(s: Seq<char>, c: char, sub: Seq<char>) -> Seq<char>
    decreases s.len(),
{
    if s.len() == 0 {
        Seq::empty()
    } else {
        replace_char(s.drop_last(), c, sub) + (if s.last() == c {
            sub
        } else {
            seq![s.last()]
        })
    }
}

/// The wildcard substitution text for a timestamp under a naming format.
pub open spec fn spec_rendered(format: FilenameFormat, secs: int) -> Seq<char> {
    match format {
        FilenameFormat::Timestamp => spec_hex16(secs as u64),
        FilenameFormat::Readable => {
            let c = civil_of_unix(secs);
            spec_pad4(c.0) + seq!['-'] + spec_pad2(c.1) + seq!['-'] + spec_pad2(c.2) + seq!['T']
                + spec_pad2(c.3) + seq!['_'] + spec_pad2(c.4) + seq!['_'] + spec_pad2(c.5)
                + seq!['Z']
        },
    }
}

/// An immutable file-set pattern: a target directory and a filename template
/// holding the `*` wildcard.
pub struct FileSet {
    dir: String,
    file_name_template: String,
    format: FilenameFormat,
}

/// The concrete path for `fs` at time `ts`: the template with every wildcard
/// replaced by the rendered timestamp, joined onto the directory.
pub open spec fn spec_file_path(fs: FileSet, ts: Timestamp) -> Seq<char> {
    spec_joined(
        fs.spec_dir(),
        replace_char(fs.spec_template(), '*', spec_rendered(fs.spec_format(), ts.unix())),
    )
}

impl FileSet {
    /// A file set always has a nonempty directory and a wildcard in its
    /// template.
    #[verifier::type_invariant]
    pub closed spec fn wf(self) -> bool {
        self.dir@.len() > 0 && self.file_name_template@.contains('*')
    }

    pub closed spec fn spec_dir(self) -> Seq<char> {
        self.dir@
    }

    pub closed spec fn spec_template(self) -> Seq<char> {
        self.file_name_template@
    }

    pub closed spec fn spec_format(self) -> FilenameFormat {
        self.format
    }

    /// Splits `file_set` at its last `/` into a directory and a filename
    /// template; the template must hold the `*` wildcard.
    pub fn new(file_set: &str, format: FilenameFormat) -> (r: Result<FileSet, PatternError>)
        ensures
            r is Ok <==> rfind(file_set@, '/') >= 0 && spec_template_of(file_set@).contains('*'),
            match r {
                Ok(fs) => fs.spec_dir() == spec_dir_of(file_set@) && fs.spec_template()
                    == spec_template_of(file_set@) && fs.spec_format() == format,
                Err(e) => match e {
                    PatternError::NoDirectory => rfind(file_set@, '/') < 0,
                    PatternError::NoWildcard => rfind(file_set@, '/') >= 0 && !spec_template_of(
                        file_set@,
                    ).contains('*'),
                },
            },
    {
        proof {
            lemma_rfind(file_set@, '/');
        }
        match rfind_char(file_set, '/') {
            None => Err(PatternError::NoDirectory),
            Some(i) => {
                let n = file_set.unicode_len();
                let template_str = file_set.substring_char(i + 1, n);
                proof {
                    assert(template_str@ =~= spec_template_of(file_set@));
                }
                if !contains_char(template_str, '*') {
                    Err(PatternError::NoWildcard)
                } else {
                    let dir_str = if i == 0 {
                        proof {
                            reveal_strlit("/");
                            assert(("/")@ =~= seq!['/']);
                        }
                        "/"
                    } else {
                        let d = file_set.substring_char(0, i);
                        proof {
                            assert(d@ =~= file_set@.take(i as int));
                        }
                        d
                    };
                    Ok(
                        FileSet {
                            dir: String::from_str(dir_str),
                            file_name_template: String::from_str(template_str),
                            format,
                        },
                    )
                }
            },
        }
    }

    /// The parsed directory.
    pub fn dir_name(&self) -> (r: &str)
        ensures
            r@ == self.spec_dir(),
    {
        self.dir.as_str()
    }

    /// The parsed filename template, wildcard included.
    pub fn file_name_template(&self) -> (r: &str)
        ensures
            r@ == self.spec_template(),
    {
        self.file_name_template.as_str()
    }

    /// The concrete path for this file set at time `timestamp`: pure and
    /// deterministic, so two calls within the same second agree.
    pub fn make_file_path(&self, timestamp: &Timestamp) -> (r: String)
        ensures
            r@ == spec_file_path(*self, *timestamp),
    {
        proof {
            use_type_invariant(self);
        }
        let secs = timestamp.unix_seconds();
        proof {
            assert(secs as int == timestamp.unix());
        }
        let mut rendered: Vec<char> = Vec::new();
        match self.format {
            FilenameFormat::Timestamp => {
                push_hex16(&mut rendered, secs);
                proof {
                    assert(secs == timestamp.unix() as u64);
                }
            },
            FilenameFormat::Readable => {
                let c = civil_from_unix(secs);
                push_pad4(&mut rendered, c.0 as u64);
                rendered.push('-');
                push_pad2(&mut rendered, c.1 as u64);
                rendered.push('-');
                push_pad2(&mut rendered, c.2 as u64);
                rendered.push('T');
                push_pad2(&mut rendered, c.3 as u64);
                rendered.push('_');
                push_pad2(&mut rendered, c.4 as u64);
                rendered.push('_');
                push_pad2(&mut rendered, c.5 as u64);
                rendered.push('Z');
                proof {
                    assert(rendered@ =~= spec_rendered(self.format, timestamp.unix()));
                }
            },
        }
        proof {
            assert(rendered@ =~= spec_rendered(self.spec_format(), timestamp.unix()));
        }
        let mut out: Vec<char> = Vec::new();
        push_str_chars(&mut out, self.dir.as_str());
        let dn = self.dir.as_str().unicode_len();
        if self.dir.as_str().get_char(dn - 1) != '/' {
            out.push('/');
        }
        proof {
            assert(out@ =~= spec_dir_slash(self.spec_dir()));
        }
        let t = self.file_name_template.as_str();
        let n = t.unicode_len();
        let mut i: usize = 0;
        while i < n
            invariant
                n == t@.len(),
                i <= n,
                out@ == spec_dir_slash(self.spec_dir()) + replace_char(
                    t@.take(i as int),
                    '*',
                    rendered@,
                ),
            decreases n - i,
        {
            let ch = t.get_char(i);
            if ch == '*' {
                push_chars(&mut out, &rendered);
            } else {
                out.push(ch);
            }
            proof {
                assert(t@.take(i + 1).drop_last() =~= t@.take(i as int));
                assert(t@.take(i + 1).last() == t@[i as int]);
                assert(out@ =~= spec_dir_slash(self.spec_dir()) + replace_char(
                    t@.take(i + 1),
                    '*',
                    rendered@,
                ));
            }
            i += 1;
        }
        proof {
            assert(t@.take(n as int) =~= t@);
        }
        string_from_chars(out)
    }
}

/// A valid pattern splits losslessly: joining the parsed directory and the
/// parsed filename template reconstructs the pattern itself.  (A pattern
/// whose directory part already ends in `/` reconstructs with that run of
/// separators collapsed, so it is left out here.)
pub proof fn lemma_parse_round_trip(p: Seq<char>)
    requires
        rfind(p, '/') >= 0,
        rfind(p, '/') == 0 || p[rfind(p, '/') - 1] != '/',
    ensures
        spec_joined(spec_dir_of(p), spec_template_of(p)) == p,
{
    lemma_rfind(p, '/');
    let r = rfind(p, '/');
    if r == 0 {
        assert(p[0] == '/');
        assert(seq!['/'] + p.skip(1) =~= p);
    } else {
        assert(p.take(r).last() == p[r - 1]);
        assert(p[r] == '/');
        assert(p.take(r) + seq!['/'] + p.skip(r + 1) =~= p);
    }
}

/// Path construction is deterministic: for one file set, timestamps holding
/// the same Unix second yield the same path.
pub proof fn lemma_path_deterministic(fs: FileSet, t1: Timestamp, t2: Timestamp)
    requires
        t1.unix() == t2.unix(),
    ensures
        spec_file_path(fs, t1) == spec_file_path(fs, t2),
{
}

} // verus!
