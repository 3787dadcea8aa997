//! Compile-command construction: the fixed C++ toolchain invocation and the
//! `{{src}}` template substitution of the generalized path.

use crate::text::push_char;
use vstd::prelude::*;

verus! {

/// Builds the fixed toolchain invocation for one C++ source artifact.
pub struct CppCompiler;

impl CppCompiler {
    pub fn new() -> (r: CppCompiler) {
        CppCompiler
    }

    /// The fixed toolchain command, one argument per element: compile
    /// `source_path` into `output_path` with the baked-in language standard
    /// and optimization level.
    pub fn compile_argv(&self, source_path: &str, output_path: &str) -> (r: Vec<String>)
        ensures
            r@.len() == 6,
            r@[0]@ == "g++"@,
            r@[1]@ == source_path@,
            r@[2]@ == "-std=c++20"@,
            r@[3]@ == "-O2"@,
            r@[4]@ == "-o"@,
            r@[5]@ == output_path@,
    {
        let mut v: Vec<String> = Vec::new();
        v.push(String::from_str("g++"));
        v.push(String::from_str(source_path));
        v.push(String::from_str("-std=c++20"));
        v.push(String::from_str("-O2"));
        v.push(String::from_str("-o"));
        v.push(String::from_str(output_path));
        v
    }
}

impl Default for CppCompiler {
    fn default() -> (r: Self) {
        CppCompiler::new()
    }
}

/// The compile-command placeholder that stands for the source path,
/// `{{src}}`.
pub open spec fn src_placeholder() -> Seq<char> {
    seq!['{', '{', 's', 'r', 'c', '}', '}']
}

/// `t` with every occurrence of the `{{src}}` placeholder replaced by `rep`,
/// scanning left to right without overlap.
pub open spec fn subst_src(t: Seq<char>, rep: Seq<char>) -> Seq<char>
    decreases t.len(),
{
    if t.len() >= 7 && t.take(7) == src_placeholder() {
        rep + subst_src(t.skip(7), rep)
    } else if t.len() == 0 {
        t
    } else {
        seq![t[0]] + subst_src(t.skip(1), rep)
    }
}

/// The compile command for one source artifact: the caller-supplied template
/// with `{{src}}` substituted with the source path.
pub fn render_compile_cmd(template: &str, source_path: &str) -> (r: String)
    ensures
        r@ == subst_src(template@, source_path@),
{
    let n = template.unicode_len();
    let mut out = String::new();
    let mut i: usize = 0;
    proof {
        assert(template@.skip(0) =~= template@);
        assert(out@ + subst_src(template@.skip(0), source_path@) =~= subst_src(
            template@,
            source_path@,
        ));
    }
    while i < n
        invariant
            0 <= i <= n,
            n == template@.len(),
            out@ + subst_src(template@.skip(i as int), source_path@) == subst_src(
                template@,
                source_path@,
            ),
        decreases n - i,
    {
        let ghost u = template@.skip(i as int);
        if n - i >= 7 && template.get_char(i) == '{' && template.get_char(i + 1) == '{'
            && template.get_char(i + 2) == 's' && template.get_char(i + 3) == 'r'
            && template.get_char(i + 4) == 'c' && template.get_char(i + 5) == '}'
            && template.get_char(i + 6) == '}' {
            proof {
                assert(u.take(7) =~= src_placeholder());
                assert(u.skip(7) =~= template@.skip(i + 7));
            }
            let ghost prev = out@;
            out.append(source_path);
            proof {
                assert((prev + source_path@) + subst_src(template@.skip(i + 7), source_path@)
                    =~= prev + (source_path@ + subst_src(template@.skip(i + 7), source_path@)));
            }
            i = i + 7;
        } else {
            proof {
                if u.len() >= 7 && u.take(7) == src_placeholder() {
                    assert(u.take(7)[0] == u[0] && u.take(7)[1] == u[1] && u.take(7)[2] == u[2]
                        && u.take(7)[3] == u[3] && u.take(7)[4] == u[4] && u.take(7)[5] == u[5]
                        && u.take(7)[6] == u[6]);
                    assert(false);
                }
                assert(u.skip(1) =~= template@.skip(i + 1));
            }
            let c = template.get_char(i);
            let ghost prev = out@;
            push_char(&mut out, c);
            proof {
                assert(out@ =~= prev + seq![c]);
                assert((prev + seq![c]) + subst_src(template@.skip(i + 1), source_path@) =~= prev
                    + (seq![c] + subst_src(template@.skip(i + 1), source_path@)));
            }
            i = i + 1;
        }
    }
    proof {
        assert(template@.skip(n as int) =~= Seq::<char>::empty());
        assert(out@ + subst_src(Seq::<char>::empty(), source_path@) =~= out@);
    }
    out
}

} // verus!
