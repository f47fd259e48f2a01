//! JavaScript in rules (`<js>...</js>`, `@js:`), run by the `boa_engine`
//! interpreter. A script sees `result`, `baseUrl`, `book`, `window` and the
//! helpers `java.encodeURI`, `java.base64Encode` and `java.base64Decode`.
//!
//! What a script returns depends on the script (which may read the clock or
//! draw random numbers), so nothing is claimed of it; what is verified is what
//! an interpreter is handed (the globals of a plan, in order, then the code:
//! see `Interpreter::log`) and how its answers become the value (`run_ok`).
//! Interpreters run with a loop limit, so no script runs forever.
use vstd::prelude::*;
use boa_engine::object::ObjectInitializer;
use boa_engine::property::Attribute;
use boa_engine::{Context, JsError, JsString, JsValue, NativeFunction, Source};
use base64::Engine;
use vstd::string::StringSliceAdditionalSpecFns;
use crate::text::{chars_of, opt_str, trim, trim_chars, trim_str, utf8_to_string};
use crate::url_util::{form_encode, form_urlencode};

verus! {

#[verifier::external_type_specification]
#[verifier::external_body]
pub struct ExJsContext(boa_engine::Context);

#[verifier::external_type_specification]
#[verifier::external_body]
pub struct ExJsValue(boa_engine::JsValue);

#[verifier::external_type_specification]
#[verifier::external_body]
pub struct ExJsError(boa_engine::JsError);

// ---------------------------------------------------------------------------
// Base64
// ---------------------------------------------------------------------------

/// The base64 digit for a value below 64 (standard alphabet).
pub open spec fn b64_digit(v: int) -> char {
    if v < 26 {
        (65 + v) as char
    } else if v < 52 {
        (97 + v - 26) as char
    } else if v < 62 {
        (48 + v - 52) as char
    } else if v == 62 {
        '+'
    } else {
        '/'
    }
}

/// Standard base64 with `=` padding (RFC 4648).
pub open spec fn b64_encode(b: Seq<u8>) -> Seq<char>
    decreases b.len(),
{
    if b.len() == 0 {
        Seq::empty()
    } else if b.len() == 1 {
        let x = b[0] as int;
        seq![b64_digit(x / 4), b64_digit((x % 4) * 16), '=', '=']
    } else if b.len() == 2 {
        let (x, y) = (b[0] as int, b[1] as int);
        seq![b64_digit(x / 4), b64_digit((x % 4) * 16 + y / 16), b64_digit((y % 16) * 4), '=']
    } else {
        let (x, y, z) = (b[0] as int, b[1] as int, b[2] as int);
        seq![
            b64_digit(x / 4),
            b64_digit((x % 4) * 16 + y / 16),
            b64_digit((y % 16) * 4 + z / 64),
            b64_digit(z % 64),
        ] + b64_encode(b.skip(3))
    }
}

/// `base64::engine::general_purpose::STANDARD.encode`: standard alphabet,
/// padded.
#[verifier::external_body]
fn base64_encode_bytes(bytes: &[u8]) -> (r: String)
    ensures
        r@ == b64_encode(bytes@),
{
    base64::engine::general_purpose::STANDARD.encode(bytes)
}

/// `base64::engine::general_purpose::STANDARD.decode`: that engine requires
/// canonical padding and zero trailing bits, so it accepts exactly the texts
/// that are the encoding of some bytes, and gives those bytes back.
#[verifier::external_body]
fn base64_decode_text(text: &str) -> (r: Option<Vec<u8>>)
    ensures
        r matches Some(b) ==> b64_encode(b@) == text@,
        r is None ==> forall|b: Seq<u8>| b64_encode(b) != text@,
{
    base64::engine::general_purpose::STANDARD.decode(text.as_bytes()).ok()
}

/// `java.base64Encode`: the base64 of the text's UTF-8 bytes.
pub fn base64_encode_text(input: &str) -> (r: String)
    ensures
        r@ == b64_encode(input.spec_bytes()),
{
    base64_encode_bytes(input.as_bytes())
}

/// `java.base64Decode`: the text whose bytes the input encodes; empty when
/// the input is not base64 or the bytes are not UTF-8.
pub fn base64_decode_to_text(input: &str) -> (r: String)
    ensures
        (forall|b: Seq<u8>| b64_encode(b) != input@) ==> r@.len() == 0,
        forall|b: Seq<u8>| b64_encode(b) == input@ ==> (if vstd::utf8::valid_utf8(b) {
            r@ == vstd::utf8::decode_utf8(b)
        } else {
            r@.len() == 0
        }),
{
    match base64_decode_text(input) {
        Some(bytes) => {
            proof {
                assert forall|b: Seq<u8>| b64_encode(b) == input@ implies b == bytes@ by {
                    lemma_b64_injective(b, bytes@);
                }
            }
            match utf8_to_string(bytes.as_slice()) {
                Some(t) => t,
                None => String::new(),
            }
        },
        None => String::new(),
    }
}

/// Decoding what `java.base64Encode` gave for a text yields that text: the
/// only bytes with that encoding are the text's UTF-8 bytes.
pub proof fn law_base64_round_trip(s: Seq<char>)
    ensures
        forall|b: Seq<u8>| #[trigger] b64_encode(b) == b64_encode(vstd::utf8::encode_utf8(s))
            ==> vstd::utf8::valid_utf8(b) && vstd::utf8::decode_utf8(b) == s,
{
    assert forall|b: Seq<u8>| #[trigger] b64_encode(b) == b64_encode(vstd::utf8::encode_utf8(s))
        implies vstd::utf8::valid_utf8(b) && vstd::utf8::decode_utf8(b) == s by {
        lemma_b64_injective(b, vstd::utf8::encode_utf8(s));
        vstd::utf8::encode_utf8_valid_utf8(s);
        vstd::utf8::encode_utf8_decode_utf8(s);
    }
}

/// Different bytes have different encodings.
#[verifier::spinoff_prover]
pub proof fn lemma_b64_injective(a: Seq<u8>, b: Seq<u8>)
    requires
        b64_encode(a) == b64_encode(b),
    ensures
        a == b,
    decreases a.len(),
{
    lemma_b64_len(a);
    lemma_b64_len(b);
    if a.len() == 0 || b.len() == 0 {
        if a.len() != 0 || b.len() != 0 {
            assert(b64_encode(a).len() != b64_encode(b).len());
        }
        assert(a =~= b);
    } else {
        let ea = b64_encode(a);
        let eb = b64_encode(b);
        assert(ea[0] == eb[0] && ea[1] == eb[1] && ea[2] == eb[2] && ea[3] == eb[3]);
        lemma_b64_digit_injective();
        if a.len() >= 3 && b.len() >= 3 {
            assert(ea.skip(4) =~= b64_encode(a.skip(3)));
            assert(eb.skip(4) =~= b64_encode(b.skip(3)));
            lemma_b64_injective(a.skip(3), b.skip(3));
            assert(a[0] == b[0] && a[1] == b[1] && a[2] == b[2]) by (nonlinear_arith)
                requires
                    a[0] / 4 == b[0] / 4,
                    (a[0] % 4) * 16 + a[1] / 16 == (b[0] % 4) * 16 + b[1] / 16,
                    (a[1] % 16) * 4 + a[2] / 64 == (b[1] % 16) * 4 + b[2] / 64,
                    a[2] % 64 == b[2] % 64,
                    a[1] / 16 < 16,
                    b[1] / 16 < 16,
                    a[2] / 64 < 4,
                    b[2] / 64 < 4,
            ;
            assert(a =~= seq![a[0], a[1], a[2]] + a.skip(3));
            assert(b =~= seq![b[0], b[1], b[2]] + b.skip(3));
        } else {
            assert(a.len() == b.len()) by {
                if a.len() < 3 && b.len() >= 3 {
                    assert(ea[3] == '=');
                    assert(eb[3] != '=');
                } else if a.len() >= 3 && b.len() < 3 {
                    assert(eb[3] == '=');
                    assert(ea[3] != '=');
                } else if a.len() == 1 && b.len() == 2 {
                    assert(ea[2] == '=');
                    assert(eb[2] != '=');
                } else if a.len() == 2 && b.len() == 1 {
                    assert(eb[2] == '=');
                    assert(ea[2] != '=');
                }
            }
            if a.len() == 1 {
                assert(a[0] == b[0]) by (nonlinear_arith)
                    requires
                        a[0] / 4 == b[0] / 4,
                        (a[0] % 4) * 16 == (b[0] % 4) * 16,
                ;
            } else {
                assert(a[0] == b[0] && a[1] == b[1]) by (nonlinear_arith)
                    requires
                        a[0] / 4 == b[0] / 4,
                        (a[0] % 4) * 16 + a[1] / 16 == (b[0] % 4) * 16 + b[1] / 16,
                        (a[1] % 16) * 4 == (b[1] % 16) * 4,
                        a[1] / 16 < 16,
                        b[1] / 16 < 16,
                ;
            }
            assert(a =~= b);
        }
    }
}

proof fn lemma_b64_len(b: Seq<u8>)
    ensures
        b64_encode(b).len() == (if b.len() % 3 == 0 { b.len() / 3 * 4 } else { (b.len() / 3 + 1) * 4 }),
        b.len() > 0 ==> b64_encode(b).len() >= 4,
    decreases b.len(),
{
    if b.len() >= 3 {
        lemma_b64_len(b.skip(3));
    }
}

proof fn lemma_b64_digit_injective()
    ensures
        forall|x: int, y: int| 0 <= x < 64 && 0 <= y < 64 && #[trigger] b64_digit(x) == #[trigger] b64_digit(y) ==> x == y,
        forall|x: int| 0 <= x < 64 ==> #[trigger] b64_digit(x) != '=',
{
    assert forall|x: int, y: int| 0 <= x < 64 && 0 <= y < 64 && #[trigger] b64_digit(x) == #[trigger] b64_digit(y) implies x == y by {
        assert(b64_digit(x) as int == b64_digit(y) as int);
    }
}

// ---------------------------------------------------------------------------
// The interpreter
// ---------------------------------------------------------------------------

/// What a script's value reads as.
pub enum JsText {
    /// `null` or `undefined`.
    Absent,
    /// The value converted to a string.
    Text(String),
    /// The conversion to a string threw.
    Unreadable,
}

/// The view of what a value reads as.
pub enum TextView {
    Absent,
    Text(Seq<char>),
    Unreadable,
}

impl View for JsText {
    type V = TextView;

    open spec fn view(&self) -> TextView {
        match self {
            JsText::Absent => TextView::Absent,
            JsText::Text(s) => TextView::Text(s@),
            JsText::Unreadable => TextView::Unreadable,
        }
    }
}

/// What is handed to an interpreter, with what it answered, in order. An
/// error text is `None` when the interpreter took the step without error.
pub enum Handed {
    /// A global set to a string: its name, its value, and the error.
    Global(Seq<char>, Seq<char>, Option<Seq<char>>),
    /// A script run: its code, and the text of what it threw (`None` when it
    /// gave a value).
    Eval(Seq<char>, Option<Seq<char>>),
    /// A global set to the value the last script gave: its name, and the error.
    Value(Seq<char>, Option<Seq<char>>),
    /// The `java` global, and the error.
    Java(Option<Seq<char>>),
    /// A `window` global with `location` and `href` both the URL, and the error.
    WindowAt(Seq<char>, Option<Seq<char>>),
    /// A `window` global with no properties, and the error.
    Window(Option<Seq<char>>),
    /// The value the last script gave, read as text: what it read as.
    Read(TextView),
}

/// The error text of an outcome, if it is one.
pub open spec fn err_text<T>(r: Result<T, String>) -> Option<Seq<char>> {
    match r {
        Ok(_) => None,
        Err(m) => Some(m@),
    }
}

/// The most loop iterations a script may run within one function call (or
/// at its top level) before the interpreter stops it with an error.
pub const SCRIPT_LOOP_LIMIT: u64 = 1000000;

/// An interpreter, with the record of what was handed to it and what it
/// answered. Each interpreter is made with a loop limit
/// (`SCRIPT_LOOP_LIMIT`), and boa limits the depth of nested calls (512 by
/// default), so whatever script it runs (a rule's code, a setter on the
/// global object, a `toString`) ends or throws: it cannot run forever.
pub struct Interpreter {
    ctx: Context,
    handed: Ghost<Seq<Handed>>,
}

impl Interpreter {
    /// What was handed to the interpreter so far, with its answers, in order.
    pub closed spec fn log(&self) -> Seq<Handed> {
        self.handed@
    }

    /// A fresh interpreter with the loop limit, to which nothing was handed yet.
    pub fn new() -> (i: Interpreter)
        ensures
            i.log() == Seq::<Handed>::empty(),
    {
        let mut ctx = new_context();
        limit_loops(&mut ctx, SCRIPT_LOOP_LIMIT);
        Interpreter { ctx, handed: Ghost(Seq::empty()) }
    }
}

/// `Context::default`: a fresh interpreter.
#[verifier::external_body]
fn new_context() -> (ctx: Context) {
    Context::default()
}

/// `RuntimeLimits::set_loop_iteration_limit`: a script that runs more loop
/// iterations than this in one call is stopped with an error.
#[verifier::external_body]
fn limit_loops(ctx: &mut Context, n: u64) {
    ctx.runtime_limits_mut().set_loop_iteration_limit(n);
}

/// `Context::eval`: runs a script; the error is the thrown value as text.
#[verifier::external_body]
fn run_script(ctx: &mut Context, code: &str) -> (r: Result<JsValue, String>) {
    ctx.eval(Source::from_bytes(code)).map_err(|e| e.to_string())
}

/// `JsValue::to_string` (after telling `null` and `undefined` apart).
#[verifier::external_body]
fn read_value(ctx: &mut Context, v: &JsValue) -> (r: JsText) {
    if v.is_null() || v.is_undefined() {
        return JsText::Absent;
    }
    match v.to_string(ctx) {
        Ok(s) => JsText::Text(s.to_std_string_escaped()),
        Err(_) => JsText::Unreadable,
    }
}

/// `JsObject::set` on the global object, with a string value.
#[verifier::external_body]
fn set_global_text(ctx: &mut Context, name: &str, value: &str) -> (r: Result<(), String>) {
    let global = ctx.global_object();
    global.set(JsString::from(name), JsValue::from(JsString::from(value)), true, ctx).map(|_| ()).map_err(|e| e.to_string())
}

/// `JsObject::set` on the global object.
#[verifier::external_body]
fn set_global_value(ctx: &mut Context, name: &str, value: JsValue) -> (r: Result<(), String>) {
    let global = ctx.global_object();
    global.set(JsString::from(name), value, true, ctx).map(|_| ()).map_err(|e| e.to_string())
}

/// Builds the `java` object (an `ObjectInitializer` with the three helper
/// functions) and sets it on the global object.
#[verifier::external_body]
fn install_java(ctx: &mut Context) -> (r: Result<(), String>) {
    let java = ObjectInitializer::new(ctx)
        .function(NativeFunction::from_fn_ptr(js_encode_uri), JsString::from("encodeURI"), 1)
        .function(NativeFunction::from_fn_ptr(js_base64_encode), JsString::from("base64Encode"), 1)
        .function(NativeFunction::from_fn_ptr(js_base64_decode), JsString::from("base64Decode"), 1)
        .build();
    let global = ctx.global_object();
    global.set(JsString::from("java"), java, true, ctx).map(|_| ()).map_err(|e| e.to_string())
}

/// Builds a `window` object whose `location` and `href` are both the URL
/// (`ObjectInitializer::property`) and sets it on the global object.
#[verifier::external_body]
fn install_window_at(ctx: &mut Context, url: &str) -> (r: Result<(), String>) {
    let mut init = ObjectInitializer::new(ctx);
    init.property(JsString::from("location"), JsValue::from(JsString::from(url)), Attribute::all());
    init.property(JsString::from("href"), JsValue::from(JsString::from(url)), Attribute::all());
    let window = init.build();
    let global = ctx.global_object();
    global.set(JsString::from("window"), window, true, ctx).map(|_| ()).map_err(|e| e.to_string())
}

/// Builds an empty `window` object and sets it on the global object.
#[verifier::external_body]
fn install_window(ctx: &mut Context) -> (r: Result<(), String>) {
    let window = ObjectInitializer::new(ctx).build();
    let global = ctx.global_object();
    global.set(JsString::from("window"), window, true, ctx).map(|_| ()).map_err(|e| e.to_string())
}

impl Interpreter {
    /// Runs a script, noting it with what it threw.
    fn run(&mut self, code: &str) -> (r: Result<JsValue, String>)
        ensures
            final(self).log() == old(self).log().push(Handed::Eval(code@, err_text(r))),
    {
        let r = run_script(&mut self.ctx, code);
        self.handed = Ghost(self.handed@.push(Handed::Eval(code@, err_text(r))));
        r
    }

    /// Reads a value as text, noting what it read as.
    fn read(&mut self, v: &JsValue) -> (r: JsText)
        ensures
            final(self).log() == old(self).log().push(Handed::Read(r@)),
    {
        let r = read_value(&mut self.ctx, v);
        self.handed = Ghost(self.handed@.push(Handed::Read(r@)));
        r
    }

    /// Sets a global to a string.
    fn set_text(&mut self, name: &str, value: &str) -> (r: Result<(), String>)
        ensures
            final(self).log() == old(self).log().push(Handed::Global(name@, value@, err_text(r))),
    {
        let r = set_global_text(&mut self.ctx, name, value);
        self.handed = Ghost(self.handed@.push(Handed::Global(name@, value@, err_text(r))));
        r
    }

    /// Sets a global to a value the last script gave.
    fn set_value(&mut self, name: &str, value: JsValue) -> (r: Result<(), String>)
        ensures
            final(self).log() == old(self).log().push(Handed::Value(name@, err_text(r))),
    {
        let r = set_global_value(&mut self.ctx, name, value);
        self.handed = Ghost(self.handed@.push(Handed::Value(name@, err_text(r))));
        r
    }

    /// Sets the `java` global.
    fn set_java(&mut self) -> (r: Result<(), String>)
        ensures
            final(self).log() == old(self).log().push(Handed::Java(err_text(r))),
    {
        let r = install_java(&mut self.ctx);
        self.handed = Ghost(self.handed@.push(Handed::Java(err_text(r))));
        r
    }

    /// Sets a `window` global whose `location` and `href` are the URL.
    fn set_window_at(&mut self, url: &str) -> (r: Result<(), String>)
        ensures
            final(self).log() == old(self).log().push(Handed::WindowAt(url@, err_text(r))),
    {
        let r = install_window_at(&mut self.ctx, url);
        self.handed = Ghost(self.handed@.push(Handed::WindowAt(url@, err_text(r))));
        r
    }

    /// Sets a `window` global with no properties.
    fn set_window(&mut self) -> (r: Result<(), String>)
        ensures
            final(self).log() == old(self).log().push(Handed::Window(err_text(r))),
    {
        let r = install_window(&mut self.ctx);
        self.handed = Ghost(self.handed@.push(Handed::Window(err_text(r))));
        r
    }
}

/// The first argument of a native call as a string (`JsValue::to_string`).
/// The helpers are called only by scripts run in an `Interpreter`, so any
/// `toString` this runs has the interpreter's loop limit.
#[verifier::external_body]
fn first_arg_text(args: &[JsValue], ctx: &mut Context) -> (r: Result<String, JsError>) {
    Ok(args.get(0).cloned().unwrap_or_default().to_string(ctx)?.to_std_string_escaped())
}

/// A string as a script value (`JsValue::from(JsString)`).
#[verifier::external_body]
fn text_value(s: &str) -> (r: JsValue) {
    JsValue::from(JsString::from(s))
}

/// `java.encodeURI(s)`.
fn js_encode_uri(_this: &JsValue, args: &[JsValue], ctx: &mut Context) -> Result<JsValue, JsError> {
    let input = first_arg_text(args, ctx)?;
    Ok(text_value(form_urlencode(input.as_str()).as_str()))
}

/// `java.base64Encode(s)`.
fn js_base64_encode(_this: &JsValue, args: &[JsValue], ctx: &mut Context) -> Result<JsValue, JsError> {
    let input = first_arg_text(args, ctx)?;
    Ok(text_value(base64_encode_text(input.as_str()).as_str()))
}

/// `java.base64Decode(s)`.
fn js_base64_decode(_this: &JsValue, args: &[JsValue], ctx: &mut Context) -> Result<JsValue, JsError> {
    let input = first_arg_text(args, ctx)?;
    Ok(text_value(base64_decode_to_text(input.as_str()).as_str()))
}

/// One global a script sees, set before it runs.
pub enum GlobalStep {
    /// A global holding a string: its name and value.
    Text(String, String),
    /// `book`: the value the JSON text evaluates to (left unset when the
    /// text does not evaluate).
    Book(String),
    /// `java`, with `encodeURI`, `base64Encode` and `base64Decode`.
    Java,
    /// `window`, with `location` and `href` both the URL.
    WindowAt(String),
    /// `window`, with no properties.
    Window,
}

/// The view of a step.
pub enum StepView {
    Text(Seq<char>, Seq<char>),
    Book(Seq<char>),
    Java,
    WindowAt(Seq<char>),
    Window,
}

impl View for GlobalStep {
    type V = StepView;

    open spec fn view(&self) -> StepView {
        match self {
            GlobalStep::Text(n, v) => StepView::Text(n@, v@),
            GlobalStep::Book(j) => StepView::Book(j@),
            GlobalStep::Java => StepView::Java,
            GlobalStep::WindowAt(u) => StepView::WindowAt(u@),
            GlobalStep::Window => StepView::Window,
        }
    }
}

pub open spec fn steps_view(p: Seq<GlobalStep>) -> Seq<StepView> {
    p.map_values(|s: GlobalStep| s@)
}

/// The text of an optional string slice.
pub open spec fn ref_text(o: Option<&str>) -> Option<Seq<char>> {
    match o {
        Some(s) => Some(s@),
        None => None,
    }
}

/// The globals a rule script sees, in the order they are set: `result`
/// (when given), `baseUrl` (when given), `book` (when a JSON text is given),
/// `java`, then `window` (with `location` and `href` exactly when a base URL
/// is given).
pub open spec fn plan_spec(result: Option<Seq<char>>, base_url: Option<Seq<char>>, book_json: Option<Seq<char>>) -> Seq<StepView> {
    let a = match result {
        Some(v) => seq![StepView::Text("result"@, v)],
        None => Seq::empty(),
    };
    let b = match base_url {
        Some(u) => seq![StepView::Text("baseUrl"@, u)],
        None => Seq::empty(),
    };
    let c = match book_json {
        Some(j) => seq![StepView::Book(j)],
        None => Seq::empty(),
    };
    let w = match base_url {
        Some(u) => StepView::WindowAt(u),
        None => StepView::Window,
    };
    a + b + c + seq![StepView::Java, w]
}

/// The globals to set for a script (see `plan_spec`).
pub fn context_plan(result: Option<&str>, base_url: Option<&str>, book_json: Option<&str>) -> (p: Vec<GlobalStep>)
    ensures
        steps_view(p@) == plan_spec(ref_text(result), ref_text(base_url), ref_text(book_json)),
{
    let mut p: Vec<GlobalStep> = Vec::new();
    if let Some(v) = result {
        p.push(GlobalStep::Text("result".to_string(), v.to_string()));
    }
    if let Some(u) = base_url {
        p.push(GlobalStep::Text("baseUrl".to_string(), u.to_string()));
    }
    if let Some(j) = book_json {
        p.push(GlobalStep::Book(j.to_string()));
    }
    p.push(GlobalStep::Java);
    match base_url {
        Some(u) => p.push(GlobalStep::WindowAt(u.to_string())),
        None => p.push(GlobalStep::Window),
    }
    proof {
        assert(steps_view(p@) =~= plan_spec(ref_text(result), ref_text(base_url), ref_text(book_json)));
    }
    p
}

/// How many entries the step ending `l` handed: two for a `book` whose
/// script gave a value (the script, then the global), one otherwise.
pub open spec fn step_len(s: StepView, l: Seq<Handed>) -> int {
    match s {
        StepView::Book(_) => if l.len() >= 1 && l.last() is Value { 2 } else { 1 },
        _ => 1,
    }
}

/// The entries of one step that the interpreter took: a string global,
/// `java` or `window` as one entry; for `book`, the JSON text run as a
/// script and, when it gave a value, the `book` global set to it.
pub open spec fn step_done(s: StepView, l: Seq<Handed>) -> bool {
    match s {
        StepView::Text(n, v) => l == seq![Handed::Global(n, v, None)],
        StepView::Book(j) => {
            ||| (l.len() == 1 && (l[0] matches Handed::Eval(c, Some(_)) && c == j))
            ||| l == seq![Handed::Eval(j, None), Handed::Value("book"@, None)]
        },
        StepView::Java => l == seq![Handed::Java(None)],
        StepView::WindowAt(u) => l == seq![Handed::WindowAt(u, None)],
        StepView::Window => l == seq![Handed::Window(None)],
    }
}

/// The entries of one step that the interpreter refused with error `m`.
pub open spec fn step_refused(s: StepView, l: Seq<Handed>, m: Seq<char>) -> bool {
    match s {
        StepView::Text(n, v) => l == seq![Handed::Global(n, v, Some(m))],
        StepView::Book(j) => l == seq![Handed::Eval(j, None), Handed::Value("book"@, Some(m))],
        StepView::Java => l == seq![Handed::Java(Some(m))],
        StepView::WindowAt(u) => l == seq![Handed::WindowAt(u, Some(m))],
        StepView::Window => l == seq![Handed::Window(Some(m))],
    }
}

/// The entries of a plan whose steps the interpreter all took, in order.
pub open spec fn plan_log_ok(plan: Seq<StepView>, l: Seq<Handed>) -> bool
    decreases plan.len(),
{
    if plan.len() == 0 {
        l.len() == 0
    } else {
        let k = step_len(plan.last(), l);
        &&& k <= l.len()
        &&& step_done(plan.last(), l.skip(l.len() - k))
        &&& plan_log_ok(plan.drop_last(), l.take(l.len() - k))
    }
}

/// The entries of a plan whose steps before `n` the interpreter took and
/// whose step `n` it refused with error `m`.
pub open spec fn plan_log_refused(plan: Seq<StepView>, n: int, m: Seq<char>, l: Seq<Handed>) -> bool {
    let k: int = if plan[n] is Book { 2 } else { 1 };
    &&& 0 <= n < plan.len()
    &&& k <= l.len()
    &&& step_refused(plan[n], l.skip(l.len() - k), m)
    &&& plan_log_ok(plan.take(n), l.take(l.len() - k))
}

/// What was handed between two states of the record: `b` extends `a`, and
/// this is what follows.
pub open spec fn handed_after(a: Seq<Handed>, b: Seq<Handed>) -> Seq<Handed> {
    b.skip(a.len() as int)
}

/// The record `b` keeps all of `a` at its start.
pub open spec fn keeps(a: Seq<Handed>, b: Seq<Handed>) -> bool {
    a.len() <= b.len() && b.take(a.len() as int) == a
}

/// Sets one global (see `GlobalStep`): the step's entries, taken or refused
/// as the interpreter answered.
fn apply_step(i: &mut Interpreter, step: &GlobalStep) -> (r: Result<(), String>)
    ensures
        keeps(old(i).log(), final(i).log()),
        match r {
            Ok(_) => step_done(step@, handed_after(old(i).log(), final(i).log())),
            Err(m) => step_refused(step@, handed_after(old(i).log(), final(i).log()), m@),
        },
{
    let ghost start = i.log();
    let r = match step {
        GlobalStep::Text(name, value) => i.set_text(name.as_str(), value.as_str()),
        GlobalStep::Book(json) => match i.run(json.as_str()) {
            Ok(value) => i.set_value("book", value),
            Err(_) => Ok(()),
        },
        GlobalStep::Java => i.set_java(),
        GlobalStep::WindowAt(url) => i.set_window_at(url.as_str()),
        GlobalStep::Window => i.set_window(),
    };
    proof {
        reveal_strlit("book");
        let added = handed_after(start, i.log());
        assert(i.log().take(start.len() as int) =~= start);
        if added.len() == 2 {
            assert(added =~= seq![i.log()[start.len() as int], i.log()[start.len() + 1 as int]]);
        } else {
            assert(added =~= seq![i.log()[start.len() as int]]);
        }
    }
    r
}

/// The records of a plan and of one more step the interpreter took, one
/// after the other, are the record of the longer plan.
proof fn lemma_plan_log_push(plan: Seq<StepView>, l: Seq<Handed>, s: StepView, m: Seq<Handed>)
    requires
        plan_log_ok(plan, l),
        step_done(s, m),
    ensures
        plan_log_ok(plan.push(s), l + m),
{
    let lm = l + m;
    assert(plan.push(s).drop_last() =~= plan);
    assert(plan.push(s).last() == s);
    assert(lm.last() == m.last());
    assert(step_len(s, lm) == m.len());
    assert(lm.skip(lm.len() - m.len()) =~= m);
    assert(lm.take(lm.len() - m.len()) =~= l);
}

/// Sets the globals of a plan in order, stopping at the first one the
/// interpreter refuses: how many steps it took, and that refusal if there
/// was one. The record shows every step taken and, after them, the refused
/// one with the error returned.
pub fn prepare_context(i: &mut Interpreter, plan: &Vec<GlobalStep>) -> (r: (usize, Result<(), String>))
    ensures
        r.0 <= plan@.len(),
        r.1 is Ok <==> r.0 == plan@.len(),
        keeps(old(i).log(), final(i).log()),
        r.1 is Ok ==> plan_log_ok(steps_view(plan@), handed_after(old(i).log(), final(i).log())),
        r.1 matches Err(m) ==> plan_log_refused(steps_view(plan@), r.0 as int, m@, handed_after(old(i).log(), final(i).log())),
{
    let ghost start = i.log();
    let ghost pv = steps_view(plan@);
    let mut k: usize = 0;
    proof {
        assert(pv.take(0) =~= Seq::<StepView>::empty());
        assert(handed_after(start, i.log()) =~= Seq::<Handed>::empty());
        assert(i.log().take(start.len() as int) =~= start);
    }
    while k < plan.len()
        invariant
            k <= plan@.len(),
            pv == steps_view(plan@),
            start == old(i).log(),
            keeps(start, i.log()),
            plan_log_ok(pv.take(k as int), handed_after(start, i.log())),
        decreases plan@.len() - k,
    {
        let ghost before = i.log();
        let res = apply_step(i, &plan[k]);
        proof {
            let l = handed_after(start, before);
            let m = handed_after(before, i.log());
            assert(pv[k as int] == plan@[k as int]@);
            assert(i.log().take(before.len() as int) =~= before);
            assert(i.log().take(start.len() as int) =~= start);
            assert(handed_after(start, i.log()) =~= l + m);
            assert(keeps(start, i.log()));
            if res is Ok {
                lemma_plan_log_push(pv.take(k as int), l, pv[k as int], m);
                assert(pv.take(k as int).push(pv[k as int]) =~= pv.take(k + 1));
            } else {
                let a = handed_after(start, i.log());
                assert(a.skip(a.len() - m.len()) =~= m);
                assert(a.take(a.len() - m.len()) =~= l);
            }
        }
        if let Err(message) = res {
            return (k, Err(message));
        }
        k = k + 1;
    }
    proof {
        assert(pv.take(k as int) =~= pv);
    }
    (k, Ok(()))
}

/// The text a value reads as, for a rule: none for `null`, `undefined`, a
/// failed conversion or a blank string.
pub open spec fn text_view_result(t: TextView) -> Option<Seq<char>> {
    match t {
        TextView::Absent => None,
        TextView::Text(s) => if trim(s).len() == 0 {
            None
        } else {
            Some(s)
        },
        TextView::Unreadable => None,
    }
}

/// Turns what a script's value reads as into the rule's value.
pub fn js_text_value(t: JsText) -> (r: Option<String>)
    ensures
        opt_str(r) == text_view_result(t@),
{
    match t {
        JsText::Absent => None,
        JsText::Text(s) => {
            if trim_chars(&chars_of(s.as_str())).len() == 0 {
                None
            } else {
                Some(s)
            }
        },
        JsText::Unreadable => None,
    }
}

/// A thrown error as the rule's value: its message, unless empty.
pub fn error_text(message: String) -> (r: Option<String>)
    ensures
        opt_str(r) == (if message@.len() == 0 { None } else { Some(message@) }),
{
    if chars_of(message.as_str()).len() == 0 {
        None
    } else {
        Some(message)
    }
}

/// Running `code` after a plan, as the record `l` shows it, with the result
/// `r` taken from the interpreter's answers:
/// - a step refused: the steps before it taken, and `r` is the error;
/// - otherwise the plan taken, then the code; when the code threw, `r` is
///   the thrown text unless it is empty; when it gave a value, the value is
///   read and `r` is what it reads as (see `text_view_result`).
pub open spec fn run_ok(plan: Seq<StepView>, code: Seq<char>, l: Seq<Handed>, r: Option<String>) -> bool {
    ||| (r is Some && exists|n: int| #[trigger] plan_log_refused(plan, n, opt_str(r)->0, l))
    ||| (l.len() >= 1 && plan_log_ok(plan, l.drop_last())
        && (l.last() matches Handed::Eval(c, Some(m)) && c == code
            && opt_str(r) == (if m.len() == 0 { None::<Seq<char>> } else { Some(m) })))
    ||| (l.len() >= 2 && plan_log_ok(plan, l.drop_last().drop_last())
        && l.drop_last().last() == Handed::Eval(code, None)
        && (l.last() matches Handed::Read(t) && opt_str(r) == text_view_result(t)))
}

/// Runs code in an interpreter after setting the globals of a plan (see
/// `run_ok` for what it is handed and what it returns).
pub fn run_with_plan(i: &mut Interpreter, plan: &Vec<GlobalStep>, code: &str) -> (r: Option<String>)
    ensures
        keeps(old(i).log(), final(i).log()),
        run_ok(steps_view(plan@), code@, handed_after(old(i).log(), final(i).log()), r),
{
    let ghost start = i.log();
    let (done, set_up) = prepare_context(i, plan);
    if let Err(message) = set_up {
        let r = Some(message);
        proof {
            assert(plan_log_refused(steps_view(plan@), done as int, opt_str(r)->0, handed_after(start, i.log())));
        }
        return r;
    }
    let ghost mid = i.log();
    let ran = i.run(code);
    proof {
        assert(i.log().take(start.len() as int) =~= start);
        assert(handed_after(start, i.log()).drop_last() =~= handed_after(start, mid));
    }
    let ghost after_run = i.log();
    match ran {
        Ok(value) => {
            let t = i.read(&value);
            let ghost tv = t@;
            let r = js_text_value(t);
            proof {
                let l = handed_after(start, i.log());
                assert(i.log().take(start.len() as int) =~= start);
                assert(l.drop_last() =~= handed_after(start, after_run));
                assert(l.drop_last().drop_last() =~= handed_after(start, mid));
                assert(l.last() == Handed::Read(tv));
                assert(l.drop_last().last() == Handed::Eval(code@, None));
            }
            r
        },
        Err(message) => {
            let ghost m = message@;
            let r = error_text(message);
            proof {
                let l = handed_after(start, i.log());
                assert(l.last() == Handed::Eval(code@, Some(m)));
            }
            r
        },
    }
}

/// Runs a script in an interpreter with the given `result`, `baseUrl` and
/// `book`: `None` for blank code, with nothing handed. Otherwise the
/// interpreter is handed the globals of `plan_spec(result, base_url,
/// book_json)` and then the trimmed code, and the result is taken from its
/// answers (see `run_ok`).
pub fn eval_js_in(
    i: &mut Interpreter,
    code: &str,
    result: Option<&str>,
    base_url: Option<&str>,
    book_json: Option<&str>,
) -> (r: Option<String>)
    ensures
        keeps(old(i).log(), final(i).log()),
        trim(code@).len() == 0 ==> r is None && final(i).log() == old(i).log(),
        trim(code@).len() > 0 ==> run_ok(
            plan_spec(ref_text(result), ref_text(base_url), ref_text(book_json)),
            trim(code@),
            handed_after(old(i).log(), final(i).log()),
            r,
        ),
{
    let code = trim_str(code);
    if chars_of(code.as_str()).len() == 0 {
        proof {
            assert(i.log().take(i.log().len() as int) =~= i.log());
        }
        return None;
    }
    let plan = context_plan(result, base_url, book_json);
    run_with_plan(i, &plan, code.as_str())
}

/// Runs a script with the given `result`, `baseUrl` and `book` in a fresh
/// interpreter (see `eval_js_in`): `None` for blank code; otherwise a
/// result that some run of the trimmed code after those globals gives.
pub fn eval_js_with_context(code: &str, result: Option<&str>, base_url: Option<&str>, book_json: Option<&str>) -> (r: Option<String>)
    ensures
        trim(code@).len() == 0 ==> r is None,
        trim(code@).len() > 0 ==> exists|l: Seq<Handed>| #[trigger] run_ok(
            plan_spec(ref_text(result), ref_text(base_url), ref_text(book_json)),
            trim(code@),
            l,
            r,
        ),
{
    let mut interp = Interpreter::new();
    let r = eval_js_in(&mut interp, code, result, base_url, book_json);
    proof {
        if trim(code@).len() > 0 {
            let l = handed_after(Seq::<Handed>::empty(), interp.log());
            assert(run_ok(plan_spec(ref_text(result), ref_text(base_url), ref_text(book_json)), trim(code@), l, r));
        }
    }
    r
}

/// Runs a script without context values.
pub fn eval_js(code: &str) -> (r: Option<String>)
    ensures
        trim(code@).len() == 0 ==> r is None,
        trim(code@).len() > 0 ==> exists|l: Seq<Handed>| #[trigger] run_ok(plan_spec(None, None, None), trim(code@), l, r),
{
    let r = eval_js_with_context(code, None, None, None);
    proof {
        assert(ref_text(None) == None::<Seq<char>>);
    }
    r
}

} // verus!
