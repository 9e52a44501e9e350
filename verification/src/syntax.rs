//! The template engine.
//!
//! A template is scanned once, left to right.  `{` opens a function scope;
//! inside a scope the first unescaped `:` separates the name from the
//! arguments and `|` separates further arguments; `}` closes the scope and
//! the call is handed to the resolver, whose answer replaces the whole
//! `{...}` span as literal output.  `\` escapes exactly the next character.
//! Scopes nest in both the name and the argument positions; every nested
//! piece is resolved before the call that contains it.  An unterminated
//! scope at end of input is still resolved from whatever text accumulated.
//!
//! The engine is specified as a small-step machine over the character
//! sequence ([`run`]): one frame per open scope, pushed on `{` and popped on
//! `}` or at end of input.  The executable engine walks the same machine
//! with an explicit stack, so its recursion depth does not grow with the
//! nesting depth of the template.

use crate::resolver::result_matches;
use crate::resolver::Resolver;
use crate::strutil::char_vec_to_string;
use crate::strutil::string_to_char_vec;
use vstd::prelude::*;
use vstd::string::StringExecFns;

verus! {

/// One open scope of the specification machine: the enclosing scope's
/// partial text, the name once the scope's `:` has fired, and the completed
/// arguments.
pub ghost struct SpecFrame {
    pub outer: Seq<char>,
    pub name: Option<Seq<char>>,
    pub args: Seq<Seq<char>>,
}

/// One resolver invocation: the name and the ordered arguments it was
/// handed.
pub ghost struct CallRec {
    pub name: Seq<char>,
    pub args: Seq<Seq<char>>,
}

/// The call made when a scope closes over accumulated text `buf`: if no `:`
/// fired, `buf` is the name and there are no arguments; otherwise `buf`
/// completes the last argument.
pub open spec fn frame_call(f: SpecFrame, buf: Seq<char>) -> CallRec {
    match f.name {
        Option::Some(n) => CallRec { name: n, args: f.args.push(buf) },
        Option::None => CallRec { name: buf, args: Seq::empty() },
    }
}

/// The specification machine, one transition per recursive call.
///
/// State: position `i`, whether the previous character was an unconsumed
/// escape, the innermost accumulated text `buf`, and the stack of open
/// scopes.  Returns the final output (or the first resolver error) together
/// with the ordered trace of resolver invocations made.
///
/// A stray unescaped `}` or `|` with no scope open ends the scan, returning
/// the text accumulated so far.
pub open spec fn run<R: Resolver>(
    input: Seq<char>,
    i: int,
    esc: bool,
    buf: Seq<char>,
    frames: Seq<SpecFrame>,
    r: R,
    ctx: R::Ctx,
) -> (Result<Seq<char>, <R::E as View>::V>, Seq<CallRec>)
    decreases input.len() - i, frames.len(), (if esc {
        1int
    } else {
        0int
    }),
    when 0 <= i <= input.len()
{
    if i == input.len() {
        if esc {
            // a trailing escape character is emitted literally
            run(input, i, false, buf.push('\\'), frames, r, ctx)
        } else if frames.len() == 0 {
            (Result::Ok(buf), Seq::empty())
        } else {
            // unterminated scope: resolve from the accumulated text
            let f = frames.last();
            let call = frame_call(f, buf);
            match r.model(call.name, call.args, ctx) {
                Result::Err(e) => (Result::Err(e), seq![call]),
                Result::Ok(ret) => {
                    let rest = run(input, i, false, f.outer + ret, frames.drop_last(), r, ctx);
                    (rest.0, seq![call] + rest.1)
                },
            }
        }
    } else {
        let c = input[i];
        if esc {
            run(input, i + 1, false, buf.push(c), frames, r, ctx)
        } else if c == '\\' {
            run(input, i + 1, true, buf, frames, r, ctx)
        } else if c == '{' {
            run(
                input,
                i + 1,
                false,
                Seq::empty(),
                frames.push(SpecFrame { outer: buf, name: Option::None, args: Seq::empty() }),
                r,
                ctx,
            )
        } else if c == ':' && frames.len() > 0 && frames.last().name is None {
            let f = frames.last();
            run(
                input,
                i + 1,
                false,
                Seq::empty(),
                frames.drop_last().push(
                    SpecFrame { outer: f.outer, name: Option::Some(buf), args: f.args },
                ),
                r,
                ctx,
            )
        } else if c == '|' && frames.len() > 0 && frames.last().name is Some {
            let f = frames.last();
            run(
                input,
                i + 1,
                false,
                Seq::empty(),
                frames.drop_last().push(
                    SpecFrame { outer: f.outer, name: f.name, args: f.args.push(buf) },
                ),
                r,
                ctx,
            )
        } else if (c == '}' || c == '|') && frames.len() == 0 {
            (Result::Ok(buf), Seq::empty())
        } else if c == '}' {
            let f = frames.last();
            let call = frame_call(f, buf);
            match r.model(call.name, call.args, ctx) {
                Result::Err(e) => (Result::Err(e), seq![call]),
                Result::Ok(ret) => {
                    let rest = run(input, i + 1, false, f.outer + ret, frames.drop_last(), r, ctx);
                    (rest.0, seq![call] + rest.1)
                },
            }
        } else {
            run(input, i + 1, false, buf.push(c), frames, r, ctx)
        }
    }
}

/// What evaluating a whole template means: the machine started at the
/// beginning with no scope open.
pub open spec fn spec_process<R: Resolver>(input: Seq<char>, r: R, ctx: R::Ctx) -> (Result<
    Seq<char>,
    <R::E as View>::V,
>, Seq<CallRec>) {
    run(input, 0, false, Seq::empty(), Seq::empty(), r, ctx)
}

/// Whether the resolver answers every call of the trace deterministically.
pub open spec fn trace_deterministic<R: Resolver>(r: R, ctx: R::Ctx, tr: Seq<CallRec>) -> bool {
    forall|k: int| 0 <= k < tr.len() ==> r.deterministic_at(tr[k].name, tr[k].args, ctx)
}

/// The five characters with a reserved meaning in a template.
pub open spec fn reserved_char(c: char) -> bool {
    c == '{' || c == '}' || c == ':' || c == '|' || c == '\\'
}

/// No reserved character anywhere in the text.
pub open spec fn reserved_free(s: Seq<char>) -> bool {
    forall|k: int| 0 <= k < s.len() ==> !reserved_char(#[trigger] s[k])
}

/// Scanning from `i`, no unescaped `{`, `}` or `|` occurs: the scan is pure
/// literal text (escapes included) and reaches end of input with no call.
pub open spec fn literal_from(s: Seq<char>, i: int, esc: bool) -> bool
    decreases s.len() - i, (if esc {
        1int
    } else {
        0int
    }),
    when 0 <= i <= s.len()
{
    if i == s.len() {
        true
    } else if esc {
        literal_from(s, i + 1, false)
    } else if s[i] == '\\' {
        literal_from(s, i + 1, true)
    } else if s[i] == '{' || s[i] == '}' || s[i] == '|' {
        false
    } else {
        literal_from(s, i + 1, false)
    }
}

/// A template that is literal text from its beginning.
pub open spec fn literal_input(s: Seq<char>) -> bool {
    literal_from(s, 0, false)
}

/// The text that a literal scan from `i` emits: each escape character
/// consumes the following character, which is emitted unchanged; a trailing
/// escape character is emitted literally.
pub open spec fn unescape_from(s: Seq<char>, i: int, esc: bool) -> Seq<char>
    decreases s.len() - i, (if esc {
        1int
    } else {
        0int
    }),
    when 0 <= i <= s.len()
{
    if i == s.len() {
        if esc {
            seq!['\\']
        } else {
            Seq::empty()
        }
    } else if esc {
        seq![s[i]] + unescape_from(s, i + 1, false)
    } else if s[i] == '\\' {
        unescape_from(s, i + 1, true)
    } else {
        seq![s[i]] + unescape_from(s, i + 1, false)
    }
}

/// The unescaped form of a whole template.
pub open spec fn unescape(s: Seq<char>) -> Seq<char> {
    unescape_from(s, 0, false)
}

/// On literal text the machine makes no call and emits the unescaped text,
/// whatever the resolver.
proof fn lemma_literal_run<R: Resolver>(
    input: Seq<char>,
    i: int,
    esc: bool,
    buf: Seq<char>,
    r: R,
    ctx: R::Ctx,
)
    requires
        0 <= i <= input.len(),
        literal_from(input, i, esc),
    ensures
        run(input, i, esc, buf, Seq::<SpecFrame>::empty(), r, ctx) == (
        Result::<Seq<char>, <R::E as View>::V>::Ok(buf + unescape_from(input, i, esc)),
        Seq::<CallRec>::empty(),
        ),
    decreases input.len() - i, (if esc {
        1int
    } else {
        0int
    }),
{
    if i == input.len() {
        if esc {
            lemma_literal_run(input, i, false, buf.push('\\'), r, ctx);
            assert(buf.push('\\') + unescape_from(input, i, false) =~= buf + unescape_from(
                input,
                i,
                true,
            ));
        } else {
            assert(buf + Seq::<char>::empty() =~= buf);
        }
    } else {
        let c = input[i];
        if esc {
            lemma_literal_run(input, i + 1, false, buf.push(c), r, ctx);
            assert(buf.push(c) + unescape_from(input, i + 1, false) =~= buf + unescape_from(
                input,
                i,
                true,
            ));
        } else if c == '\\' {
            lemma_literal_run(input, i + 1, true, buf, r, ctx);
        } else {
            lemma_literal_run(input, i + 1, false, buf.push(c), r, ctx);
            assert(buf.push(c) + unescape_from(input, i + 1, false) =~= buf + unescape_from(
                input,
                i,
                false,
            ));
        }
    }
}

/// Text with no reserved character is literal, and unescaping leaves it
/// unchanged.
proof fn lemma_reserved_free_literal(s: Seq<char>, i: int)
    requires
        0 <= i <= s.len(),
        reserved_free(s),
    ensures
        literal_from(s, i, false),
        unescape_from(s, i, false) == s.subrange(i, s.len() as int),
    decreases s.len() - i,
{
    if i == s.len() {
        assert(s.subrange(i, s.len() as int) =~= Seq::<char>::empty());
    } else {
        lemma_reserved_free_literal(s, i + 1);
        assert(seq![s[i]] + s.subrange(i + 1, s.len() as int) =~= s.subrange(i, s.len() as int));
    }
}

/// Law: a template with no reserved character evaluates to itself under any
/// resolver, and no resolver call is made.
pub proof fn lemma_no_reserved_identity<R: Resolver>(s: Seq<char>, r: R, ctx: R::Ctx)
    requires
        reserved_free(s),
    ensures
        spec_process(s, r, ctx) == (
        Result::<Seq<char>, <R::E as View>::V>::Ok(s),
        Seq::<CallRec>::empty(),
        ),
{
    lemma_reserved_free_literal(s, 0);
    lemma_literal_run(s, 0, false, Seq::empty(), r, ctx);
    assert(s.subrange(0, s.len() as int) =~= s);
    assert(Seq::<char>::empty() + s =~= s);
}

/// Law: evaluation stops at the first resolver error.  In the trace of an
/// evaluation, every call before the last one succeeded; the evaluation
/// result is an error exactly when the last call of the trace failed, and it
/// is that error, unchanged.
pub proof fn lemma_short_circuit<R: Resolver>(input: Seq<char>, r: R, ctx: R::Ctx)
    ensures
        ({
            let (res, tr) = spec_process(input, r, ctx);
            &&& forall|k: int|
                0 <= k < tr.len() - 1 ==> (#[trigger] r.model(tr[k].name, tr[k].args, ctx)) is Ok
            &&& res is Err ==> tr.len() > 0 && r.model(tr.last().name, tr.last().args, ctx)
                == Result::<Seq<char>, <R::E as View>::V>::Err(res->Err_0)
            &&& (res is Ok && tr.len() > 0) ==> r.model(
                tr.last().name,
                tr.last().args,
                ctx,
            ) is Ok
        }),
{
    lemma_short_circuit_run(input, 0, false, Seq::empty(), Seq::empty(), r, ctx);
}

proof fn lemma_short_circuit_run<R: Resolver>(
    input: Seq<char>,
    i: int,
    esc: bool,
    buf: Seq<char>,
    frames: Seq<SpecFrame>,
    r: R,
    ctx: R::Ctx,
)
    requires
        0 <= i <= input.len(),
    ensures
        ({
            let (res, tr) = run(input, i, esc, buf, frames, r, ctx);
            &&& forall|k: int|
                0 <= k < tr.len() - 1 ==> (#[trigger] r.model(tr[k].name, tr[k].args, ctx)) is Ok
            &&& res is Err ==> tr.len() > 0 && r.model(tr.last().name, tr.last().args, ctx)
                == Result::<Seq<char>, <R::E as View>::V>::Err(res->Err_0)
            &&& (res is Ok && tr.len() > 0) ==> r.model(
                tr.last().name,
                tr.last().args,
                ctx,
            ) is Ok
        }),
    decreases input.len() - i, frames.len(), (if esc {
        1int
    } else {
        0int
    }),
{
    let (res, tr) = run(input, i, esc, buf, frames, r, ctx);
    if i == input.len() {
        if esc {
            lemma_short_circuit_run(input, i, false, buf.push('\\'), frames, r, ctx);
        } else if frames.len() == 0 {
        } else {
            let f = frames.last();
            let call = frame_call(f, buf);
            match r.model(call.name, call.args, ctx) {
                Result::Err(e) => {},
                Result::Ok(ret) => {
                    lemma_short_circuit_run(
                        input,
                        i,
                        false,
                        f.outer + ret,
                        frames.drop_last(),
                        r,
                        ctx,
                    );
                    let rest = run(input, i, false, f.outer + ret, frames.drop_last(), r, ctx);
                    lemma_trace_cons(call, rest.0, rest.1, r, ctx);
                },
            }
        }
    } else {
        let c = input[i];
        if esc {
            lemma_short_circuit_run(input, i + 1, false, buf.push(c), frames, r, ctx);
        } else if c == '\\' {
            lemma_short_circuit_run(input, i + 1, true, buf, frames, r, ctx);
        } else if c == '{' {
            lemma_short_circuit_run(
                input,
                i + 1,
                false,
                Seq::empty(),
                frames.push(SpecFrame { outer: buf, name: Option::None, args: Seq::empty() }),
                r,
                ctx,
            );
        } else if c == ':' && frames.len() > 0 && frames.last().name is None {
            let f = frames.last();
            lemma_short_circuit_run(
                input,
                i + 1,
                false,
                Seq::empty(),
                frames.drop_last().push(
                    SpecFrame { outer: f.outer, name: Option::Some(buf), args: f.args },
                ),
                r,
                ctx,
            );
        } else if c == '|' && frames.len() > 0 && frames.last().name is Some {
            let f = frames.last();
            lemma_short_circuit_run(
                input,
                i + 1,
                false,
                Seq::empty(),
                frames.drop_last().push(
                    SpecFrame { outer: f.outer, name: f.name, args: f.args.push(buf) },
                ),
                r,
                ctx,
            );
        } else if (c == '}' || c == '|') && frames.len() == 0 {
        } else if c == '}' {
            let f = frames.last();
            let call = frame_call(f, buf);
            match r.model(call.name, call.args, ctx) {
                Result::Err(e) => {},
                Result::Ok(ret) => {
                    lemma_short_circuit_run(
                        input,
                        i + 1,
                        false,
                        f.outer + ret,
                        frames.drop_last(),
                        r,
                        ctx,
                    );
                    let rest = run(input, i + 1, false, f.outer + ret, frames.drop_last(), r, ctx);
                    lemma_trace_cons(call, rest.0, rest.1, r, ctx);
                },
            }
        } else {
            lemma_short_circuit_run(input, i + 1, false, buf.push(c), frames, r, ctx);
        }
    }
}

/// The short-circuit shape is preserved when a successful call is prepended
/// to a trace.
proof fn lemma_trace_cons<R: Resolver>(
    call: CallRec,
    res: Result<Seq<char>, <R::E as View>::V>,
    tr: Seq<CallRec>,
    r: R,
    ctx: R::Ctx,
)
    requires
        r.model(call.name, call.args, ctx) is Ok,
        forall|k: int|
            0 <= k < tr.len() - 1 ==> (#[trigger] r.model(tr[k].name, tr[k].args, ctx)) is Ok,
        res is Err ==> tr.len() > 0 && r.model(tr.last().name, tr.last().args, ctx)
            == Result::<Seq<char>, <R::E as View>::V>::Err(res->Err_0),
        (res is Ok && tr.len() > 0) ==> r.model(tr.last().name, tr.last().args, ctx) is Ok,
    ensures
        ({
            let tr2 = seq![call] + tr;
            &&& forall|k: int|
                0 <= k < tr2.len() - 1 ==> (#[trigger] r.model(tr2[k].name, tr2[k].args, ctx)) is Ok
            &&& res is Err ==> tr2.len() > 0 && r.model(tr2.last().name, tr2.last().args, ctx)
                == Result::<Seq<char>, <R::E as View>::V>::Err(res->Err_0)
            &&& (res is Ok && tr2.len() > 0) ==> r.model(
                tr2.last().name,
                tr2.last().args,
                ctx,
            ) is Ok
        }),
{
    let tr2 = seq![call] + tr;
    assert forall|k: int| 0 <= k < tr2.len() - 1 implies (#[trigger] r.model(
        tr2[k].name,
        tr2[k].args,
        ctx,
    )) is Ok by {
        if k == 0 {
            assert(tr2[0] == call);
        } else {
            assert(tr2[k] == tr[k - 1]);
            if k - 1 == tr.len() - 1 {
                assert(res is Err || res is Ok);
            }
        }
    }
    if tr.len() > 0 {
        assert(tr2.last() == tr.last());
    } else {
        assert(tr2.last() == call);
    }
}

/// One open scope of the executable engine; its view is the matching
/// [`SpecFrame`].
pub struct Frame {
    pub outer: Vec<char>,
    pub name: Option<String>,
    pub args: Vec<String>,
}

impl View for Frame {
    type V = SpecFrame;

    open spec fn view(&self) -> SpecFrame {
        SpecFrame {
            outer: self.outer@,
            name: match self.name {
                Option::Some(n) => Option::Some(n@),
                Option::None => Option::None,
            },
            args: self.args.deep_view(),
        }
    }
}

/// The stack of open scopes, seen abstractly.
pub open spec fn frames_view(frames: Seq<Frame>) -> Seq<SpecFrame> {
    frames.map_values(|f: Frame| f@)
}

/// Closes the scope `f` over the accumulated text `buf`: makes the one call
/// the machine makes there and, on success, returns the enclosing scope's
/// text with the resolver's answer appended.
fn resolve_frame<R: Resolver>(f: Frame, buf: &Vec<char>, resolver: &R, ctx: &R::Ctx) -> (r: Result<
    Vec<char>,
    R::E,
>)
    ensures
        ({
            let call = frame_call(f@, buf@);
            resolver.deterministic_at(call.name, call.args, *ctx) ==> (match resolver.model(
                call.name,
                call.args,
                *ctx,
            ) {
                Result::Ok(ret) => r is Ok && r->Ok_0@ == f@.outer + ret,
                Result::Err(e) => r is Err && r->Err_0@ == e,
            })
        }),
{
    let ghost call = frame_call(f@, buf@);
    let Frame { outer, name, args } = f;
    let last_piece = char_vec_to_string(buf);
    let (name_s, args_v): (String, Vec<String>) = match name {
        Option::Some(n) => {
            let mut a = args;
            a.push(last_piece);
            proof {
                assert(a.deep_view() =~= call.args);
            }
            (n, a)
        },
        Option::None => {
            let a: Vec<String> = Vec::new();
            proof {
                assert(a.deep_view() =~= call.args);
            }
            (char_vec_to_string(buf), a)
        },
    };
    match resolver.resolve(&name_s, &args_v, ctx) {
        Result::Ok(ret) => {
            let mut out = outer;
            let mut ret_chars = string_to_char_vec(&ret);
            out.append(&mut ret_chars);
            Result::Ok(out)
        },
        Result::Err(e) => Result::Err(e),
    }
}

/// Evaluates a template.
///
/// Wherever the resolver answers the calls of this evaluation
/// deterministically, the result is exactly what the specification machine
/// computes: the output of [`spec_process`] on success, and the first
/// resolver error, unchanged, on failure.  A template of pure literal text
/// evaluates, under any resolver, to its unescaped self, and no call is
/// made.
pub fn process<R: Resolver>(input: &str, resolver: &R, ctx: &R::Ctx) -> (r: Result<String, R::E>)
    ensures
        trace_deterministic(*resolver, *ctx, spec_process(input@, *resolver, *ctx).1)
            ==> result_matches(r, spec_process(input@, *resolver, *ctx).0),
        literal_input(input@) ==> r is Ok && r->Ok_0@ == unescape(input@),
{
    let input_string = String::from_str(input);
    let chars = string_to_char_vec(&input_string);
    let ghost full = spec_process(input@, *resolver, *ctx);
    let ghost hyp = trace_deterministic(*resolver, *ctx, full.1);
    let mut i: usize = 0;
    let mut esc: bool = false;
    let mut buf: Vec<char> = Vec::new();
    let mut frames: Vec<Frame> = Vec::new();
    let ghost mut done: Seq<CallRec> = Seq::empty();
    proof {
        assert(frames_view(frames@) =~= Seq::<SpecFrame>::empty());
        assert(Seq::<CallRec>::empty() + full.1 =~= full.1);
    }
    loop
        invariant
            i <= chars.len(),
            chars@ == input@,
            hyp == trace_deterministic(*resolver, *ctx, full.1),
            full == spec_process(input@, *resolver, *ctx),
            hyp ==> {
                let cur = run(input@, i as int, esc, buf@, frames_view(frames@), *resolver, *ctx);
                &&& cur.0 == full.0
                &&& full.1 == done + cur.1
                &&& done.len() <= full.1.len()
            },
            literal_input(input@) ==> {
                &&& frames@.len() == 0
                &&& literal_from(input@, i as int, esc)
                &&& unescape(input@) == buf@ + unescape_from(input@, i as int, esc)
            },
        decreases chars.len() - i, frames.len(), (if esc {
            1int
        } else {
            0int
        }),
    {
        let ghost fv = frames_view(frames@);
        let ghost cur = run(input@, i as int, esc, buf@, fv, *resolver, *ctx);
        if i == chars.len() {
            if esc {
                buf.push('\\');
                esc = false;
                proof {
                    if literal_input(input@) {
                        assert(buf@ + unescape_from(input@, i as int, false) =~= buf@.drop_last()
                            + unescape_from(input@, i as int, true));
                    }
                }
            } else if frames.len() == 0 {
                let out = char_vec_to_string(&buf);
                proof {
                    if literal_input(input@) {
                        assert(buf@ + Seq::<char>::empty() =~= buf@);
                    }
                    if hyp {
                        assert(done + Seq::<CallRec>::empty() =~= done);
                    }
                }
                return Result::Ok(out);
            } else {
                // unterminated scope at end of input: resolve it in place
                let f = frames.pop().unwrap();
                proof {
                    assert(fv.last() == f@);
                    assert(frames_view(frames@) =~= fv.drop_last());
                    let call = frame_call(f@, buf@);
                    if hyp {
                        assert(cur.1[0] == call);
                        assert(full.1[done.len() as int] == call);
                        assert(resolver.deterministic_at(call.name, call.args, *ctx));
                    }
                }
                match resolve_frame(f, &buf, resolver, ctx) {
                    Result::Ok(nb) => {
                        let ghost call = frame_call(f@, buf@);
                        buf = nb;
                        proof {
                            done = done + seq![call];
                            if hyp {
                                let rest = run(
                                    input@,
                                    i as int,
                                    false,
                                    buf@,
                                    frames_view(frames@),
                                    *resolver,
                                    *ctx,
                                );
                                assert(full.1 =~= done + rest.1);
                            }
                        }
                    },
                    Result::Err(e) => {
                        return Result::Err(e);
                    },
                }
            }
        } else {
            let c = chars[i];
            if esc {
                buf.push(c);
                esc = false;
                i = i + 1;
                proof {
                    if literal_input(input@) {
                        assert(buf@ + unescape_from(input@, i as int, false) =~= buf@.drop_last()
                            + unescape_from(input@, i - 1, true));
                    }
                }
            } else if c == '\\' {
                esc = true;
                i = i + 1;
            } else if c == '{' {
                let new_frame = Frame { outer: buf, name: Option::None, args: Vec::new() };
                proof {
                    assert(new_frame@ == (SpecFrame {
                        outer: new_frame.outer@,
                        name: Option::None,
                        args: Seq::empty(),
                    })) by {
                        assert(new_frame.args.deep_view() =~= Seq::<Seq<char>>::empty());
                    }
                }
                frames.push(new_frame);
                buf = Vec::new();
                i = i + 1;
                proof {
                    assert(frames_view(frames@) =~= fv.push(new_frame@));
                    if literal_input(input@) {
                        assert(false);
                    }
                }
            } else {
                let top_name_missing = if frames.len() > 0 {
                    frames[frames.len() - 1].name.is_none()
                } else {
                    false
                };
                if c == ':' && top_name_missing {
                    let ghost old_buf = buf@;
                    let mut f = frames.pop().unwrap();
                    proof {
                        assert(fv.last() == f@);
                    }
                    let ghost old_f = f@;
                    f.name = Option::Some(char_vec_to_string(&buf));
                    frames.push(f);
                    buf = Vec::new();
                    i = i + 1;
                    proof {
                        assert(frames_view(frames@) =~= fv.drop_last().push(
                            SpecFrame {
                                outer: old_f.outer,
                                name: Option::Some(old_buf),
                                args: old_f.args,
                            },
                        ));
                    }
                } else {
                    let top_name_present = if frames.len() > 0 {
                        frames[frames.len() - 1].name.is_some()
                    } else {
                        false
                    };
                    if c == '|' && top_name_present {
                        let ghost old_buf = buf@;
                        let mut f = frames.pop().unwrap();
                        proof {
                            assert(fv.last() == f@);
                        }
                        let ghost old_f = f@;
                        f.args.push(char_vec_to_string(&buf));
                        proof {
                            assert(f@.args =~= old_f.args.push(old_buf));
                        }
                        frames.push(f);
                        buf = Vec::new();
                        i = i + 1;
                        proof {
                            assert(frames_view(frames@) =~= fv.drop_last().push(
                                SpecFrame {
                                    outer: old_f.outer,
                                    name: old_f.name,
                                    args: old_f.args.push(old_buf),
                                },
                            ));
                        }
                    } else if (c == '}' || c == '|') && frames.len() == 0 {
                        // stray close or separator with no scope open: the
                        // scan ends here
                        let out = char_vec_to_string(&buf);
                        proof {
                            if literal_input(input@) {
                                assert(!literal_from(input@, i as int, false));
                                assert(false);
                            }
                            if hyp {
                                assert(done + Seq::<CallRec>::empty() =~= done);
                            }
                        }
                        return Result::Ok(out);
                    } else if c == '}' {
                        let f = frames.pop().unwrap();
                        proof {
                            assert(fv.last() == f@);
                            assert(frames_view(frames@) =~= fv.drop_last());
                            let call = frame_call(f@, buf@);
                            if hyp {
                                assert(cur.1[0] == call);
                                assert(full.1[done.len() as int] == call);
                                assert(resolver.deterministic_at(call.name, call.args, *ctx));
                            }
                        }
                        match resolve_frame(f, &buf, resolver, ctx) {
                            Result::Ok(nb) => {
                                let ghost call = frame_call(f@, buf@);
                                buf = nb;
                                i = i + 1;
                                proof {
                                    done = done + seq![call];
                                    if hyp {
                                        let rest = run(
                                            input@,
                                            i as int,
                                            false,
                                            buf@,
                                            frames_view(frames@),
                                            *resolver,
                                            *ctx,
                                        );
                                        assert(full.1 =~= done + rest.1);
                                    }
                                }
                            },
                            Result::Err(e) => {
                                return Result::Err(e);
                            },
                        }
                    } else {
                        buf.push(c);
                        i = i + 1;
                        proof {
                            if literal_input(input@) {
                                assert(buf@ + unescape_from(input@, i as int, false)
                                    =~= buf@.drop_last() + unescape_from(input@, i - 1, false));
                            }
                        }
                    }
                }
            }
        }
    }
}

} // verus!
