use vstd::prelude::*;
use vstd::string::StringSliceAdditionalSpecFns;
use crate::codec::Codec;

verus! {

/// An error in the encoding or decoding process.
#[derive(Debug)]
pub struct CodeError {
    /// What went wrong.
    pub message: String,
    /// The input bytes read leading up to the error, if recorded.
    pub bad_bytes: Option<Vec<u8>>,
    /// The error that caused this one, if any.
    pub inner: Option<Box<CodeError>>,
    /// The name of the stage that relayed the error, once a stage has done so.
    pub encoding_name: Option<String>,
}

impl CodeError {
    /// Creates a new error with the given message and nothing else.
    pub fn new(message: &str) -> (r: CodeError)
        ensures
            r.message@ == message@,
            r.bad_bytes is None,
            r.inner is None,
            r.encoding_name is None,
    {
        CodeError { message: message.to_owned(), bad_bytes: None, inner: None, encoding_name: None }
    }

    /// Records the bytes leading up to the error.
    pub fn with_bytes(self, bytes: Vec<u8>) -> (r: CodeError)
        ensures
            r.message == self.message,
            r.bad_bytes == Some(bytes),
            r.inner == self.inner,
            r.encoding_name == self.encoding_name,
    {
        CodeError { bad_bytes: Some(bytes), ..self }
    }

    /// Records the error that caused this one.
    pub fn with_inner(self, inner: CodeError) -> (r: CodeError)
        ensures
            r.message == self.message,
            r.bad_bytes == self.bad_bytes,
            r.inner == Some(Box::new(inner)),
            r.encoding_name == self.encoding_name,
    {
        CodeError { inner: Some(Box::new(inner)), ..self }
    }

    /// Replaces the recorded cause.
    pub fn set_inner(&mut self, inner: Option<Box<CodeError>>)
        ensures
            final(self).message == old(self).message,
            final(self).bad_bytes == old(self).bad_bytes,
            final(self).inner == inner,
            final(self).encoding_name == old(self).encoding_name,
    {
        self.inner = inner;
    }

    /// Records the name of the stage that detected the error.
    pub fn with_name(self, name: &str) -> (r: CodeError)
        ensures
            r.message == self.message,
            r.bad_bytes == self.bad_bytes,
            r.inner == self.inner,
            r.encoding_name matches Some(n) && n@ == name@,
    {
        CodeError { encoding_name: Some(name.to_owned()), ..self }
    }
}

/// What a stage does when its codec reports an error.
#[derive(Debug, Clone, Copy, PartialEq, Eq, Structural)]
pub enum ErrorPolicy {
    /// Deliver the error to the caller.
    Halt,
    /// Drop the erroneous input and go on.
    Skip,
    /// Put the codec's replacement bytes in the output and go on.
    Replace,
}

/// The three words that name an error policy on a command line.
pub open spec fn policy_word(p: ErrorPolicy) -> Seq<u8> {
    match p {
        ErrorPolicy::Halt => seq![104u8, 97u8, 108u8, 116u8],
        ErrorPolicy::Skip => seq![115u8, 107u8, 105u8, 112u8],
        ErrorPolicy::Replace => seq![114u8, 101u8, 112u8, 108u8, 97u8, 99u8, 101u8],
    }
}

pub(crate) fn bytes_equal(a: &[u8], b: &[u8]) -> (r: bool)
    ensures
        r == (a@ == b@),
{
    if a.len() != b.len() {
        return false;
    }
    let mut i: usize = 0;
    while i < a.len()
        invariant
            a@.len() == b@.len(),
            i <= a@.len(),
            forall|j: int| 0 <= j < i ==> a@[j] == b@[j],
        decreases a@.len() - i,
    {
        if a[i] != b[i] {
            return false;
        }
        i = i + 1;
    }
    assert(a@ =~= b@);
    true
}

/// Reads an error policy from its name: `halt`, `skip` or `replace`.
pub fn parse_error_policy(s: &str) -> (r: Option<ErrorPolicy>)
    ensures
        r matches Some(p) ==> s.spec_bytes() == policy_word(p),
        r is None ==> forall|p: ErrorPolicy| s.spec_bytes() != policy_word(p),
{
    let b = s.as_bytes();
    let halt: [u8; 4] = [104, 97, 108, 116];
    let skip: [u8; 4] = [115, 107, 105, 112];
    let replace: [u8; 7] = [114, 101, 112, 108, 97, 99, 101];
    if bytes_equal(b, halt.as_slice()) {
        assert(halt@ =~= policy_word(ErrorPolicy::Halt));
        Some(ErrorPolicy::Halt)
    } else if bytes_equal(b, skip.as_slice()) {
        assert(skip@ =~= policy_word(ErrorPolicy::Skip));
        Some(ErrorPolicy::Skip)
    } else if bytes_equal(b, replace.as_slice()) {
        assert(replace@ =~= policy_word(ErrorPolicy::Replace));
        Some(ErrorPolicy::Replace)
    } else {
        assert(halt@ =~= policy_word(ErrorPolicy::Halt));
        assert(skip@ =~= policy_word(ErrorPolicy::Skip));
        assert(replace@ =~= policy_word(ErrorPolicy::Replace));
        None
    }
}


/// One item of a byte stream: a byte, or an error raised upstream.
pub type Item = Result<u8, CodeError>;

/// The items that carry the bytes `b`.
pub open spec fn byte_items(b: Seq<u8>) -> Seq<Item> {
    b.map_values(|x: u8| Ok::<u8, CodeError>(x))
}

/// The bytes of a run of items that are all bytes.
pub open spec fn item_bytes(v: Seq<Item>) -> Seq<u8> {
    v.map_values(|x: Item| x->Ok_0)
}

/// The input side of a stage: the upstream items not read yet, ahead of
/// which bytes can be put back. The next item is the last of `stack`.
pub struct BufferedInput {
    stack: Vec<Item>,
}

impl View for BufferedInput {
    type V = Seq<Item>;

    /// The items still to be read, in reading order.
    closed spec fn view(&self) -> Seq<Item> {
        self.stack@.reverse()
    }
}

proof fn lemma_reverse_push(s: Seq<Item>, x: Item)
    ensures
        s.push(x).reverse() == seq![x] + s.reverse(),
{
    assert(s.push(x).reverse() =~= seq![x] + s.reverse());
}

proof fn lemma_reverse_drop_last(s: Seq<Item>)
    requires
        s.len() > 0,
    ensures
        s.reverse().len() == s.len(),
        s.reverse()[0] == s.last(),
        s.drop_last().reverse() == s.reverse().drop_first(),
{
    assert(s.drop_last().reverse() =~= s.reverse().drop_first());
}

impl BufferedInput {
    /// An input that yields `items` in order.
    pub fn new(items: Vec<Item>) -> (r: BufferedInput)
        ensures
            r@ == items@,
    {
        let mut items = items;
        let ghost all = items@;
        let mut stack: Vec<Item> = Vec::new();
        while items.len() > 0
            invariant
                items@ + stack@.reverse() == all,
            decreases items@.len(),
        {
            let ghost before = items@;
            let x = items.pop().unwrap();
            proof {
                lemma_reverse_push(stack@, x);
                assert(before == items@.push(x));
                assert(items@ + (seq![x] + stack@.reverse()) =~= before + stack@.reverse());
            }
            stack.push(x);
        }
        assert(items@ + stack@.reverse() =~= stack@.reverse());
        BufferedInput { stack }
    }

    /// The next item: a byte put back, else the next upstream item.
    pub fn get_byte(&mut self) -> (r: Option<Item>)
        ensures
            old(self)@.len() == 0 ==> r is None && final(self)@ == old(self)@,
            old(self)@.len() > 0 ==> r == Some(old(self)@[0]) && final(self)@ == old(self)@.drop_first(),
    {
        proof {
            if self.stack@.len() > 0 {
                lemma_reverse_drop_last(self.stack@);
            }
        }
        self.stack.pop()
    }

    /// Exactly `n` bytes; or the error that stopped the read, carrying the
    /// bytes read before it; or nothing, when the input is already at its end.
    pub fn get_bytes(&mut self, n: usize) -> (r: Option<Result<Vec<u8>, CodeError>>)
        ensures
            final(self)@.len() <= old(self)@.len(),
            match r {
                None => n > 0 && old(self)@.len() == 0 && final(self)@ == old(self)@,
                Some(Ok(bytes)) => {
                    &&& bytes@.len() == n
                    &&& n <= old(self)@.len()
                    &&& forall|i: int| 0 <= i < n ==> old(self)@[i] == Ok::<u8, CodeError>(#[trigger] bytes@[i])
                    &&& final(self)@ == old(self)@.skip(n as int)
                },
                Some(Err(e)) => {
                    &&& e.bad_bytes matches Some(bb)
                    &&& bb@.len() < n
                    &&& forall|i: int| 0 <= i < bb@.len() ==> old(self)@[i] == Ok::<u8, CodeError>(#[trigger] bb@[i])
                    &&& {
                        ||| (bb@.len() == old(self)@.len() && bb@.len() > 0
                            && final(self)@ == old(self)@.skip(bb@.len() as int))
                        ||| (bb@.len() < old(self)@.len() && old(self)@[bb@.len() as int] is Err
                            && e.inner == Some(Box::new(old(self)@[bb@.len() as int]->Err_0))
                            && final(self)@ == old(self)@.skip(bb@.len() + 1 as int))
                    }
                },
            },
    {
        let ghost all = self@;
        let mut result: Vec<u8> = Vec::new();
        while result.len() < n
            invariant
                all == old(self)@,
                result@.len() <= n,
                result@.len() <= all.len(),
                forall|i: int| 0 <= i < result@.len() ==> all[i] == Ok::<u8, CodeError>(#[trigger] result@[i]),
                self@ == all.skip(result@.len() as int),
            decreases n - result@.len(),
        {
            let ghost k = result@.len();
            let item = self.get_byte();
            match item {
                Some(Ok(b)) => {
                    assert(all.skip(k as int)[0] == all[k as int]);
                    assert(all.skip(k as int).drop_first() =~= all.skip((k + 1) as int));
                    result.push(b);
                },
                Some(Err(e)) => {
                    assert(all.skip(k as int)[0] == all[k as int]);
                    assert(all.skip(k as int).drop_first() =~= all.skip((k + 1) as int));
                    assert(all.skip((k + 1) as int).len() <= all.len());
                    return Some(Err(CodeError::new("error getting bytes").with_bytes(result).with_inner(e)));
                },
                None => {
                    assert(all.skip(k as int).len() == 0);
                    if result.len() == 0 {
                        assert(all.skip(0) =~= all);
                        return None;
                    } else {
                        return Some(Err(CodeError::new("premature EOF in input adapter").with_bytes(result)));
                    }
                },
            }
        }
        Some(Ok(result))
    }

    /// Puts `byte` back: it is the next item read.
    pub fn unget_byte(&mut self, byte: u8)
        ensures
            final(self)@ == seq![Ok::<u8, CodeError>(byte)] + old(self)@,
    {
        proof {
            lemma_reverse_push(self.stack@, Ok(byte));
        }
        self.stack.push(Ok(byte));
    }

    /// Appends `items` after everything not read yet.
    pub fn feed(&mut self, items: Vec<Item>)
        ensures
            final(self)@ == old(self)@ + items@,
    {
        let mut items = items;
        let ghost all = items@;
        let mut s: Vec<Item> = Vec::new();
        while items.len() > 0
            invariant
                items@ + s@.reverse() == all,
            decreases items@.len(),
        {
            let ghost before = items@;
            let x = items.pop().unwrap();
            proof {
                lemma_reverse_push(s@, x);
                assert(before == items@.push(x));
                assert(items@ + (seq![x] + s@.reverse()) =~= before + s@.reverse());
            }
            s.push(x);
        }
        assert(items@ + s@.reverse() =~= s@.reverse());
        let ghost rev_items = s@;
        let ghost old_stack = self.stack@;
        s.append(&mut self.stack);
        proof {
            assert(s@ == rev_items + old_stack);
            assert((rev_items + old_stack).reverse() =~= old_stack.reverse() + rev_items.reverse());
        }
        self.stack = s;
    }

    /// How many items are still to be read.
    pub fn len(&self) -> (r: usize)
        ensures
            r == self@.len(),
    {
        self.stack.len()
    }

    /// The `i`-th item still to be read, if it is a byte.
    pub fn peek(&self, i: usize) -> (r: Option<u8>)
        requires
            i < self@.len(),
        ensures
            r matches Some(b) ==> self@[i as int] == Ok::<u8, CodeError>(b),
            r is None ==> self@[i as int] is Err,
    {
        match &self.stack[self.stack.len() - 1 - i] {
            Ok(b) => Some(*b),
            Err(_) => None,
        }
    }
}

/// What one call of a codec gave: bytes, an error, or the end of its output.
pub type Outcome = Option<Result<Seq<u8>, CodeError>>;

/// What a stage puts out for one outcome of its codec under `policy`: the
/// bytes produced; for an error, the error itself (halt), nothing (skip) or
/// the replacement bytes (replace).
pub open spec fn unit_output(policy: ErrorPolicy, repl: Seq<u8>, o: Outcome) -> Seq<Item> {
    match o {
        None => seq![],
        Some(Ok(b)) => byte_items(b),
        Some(Err(e)) => match policy {
            ErrorPolicy::Halt => seq![Err::<u8, CodeError>(e)],
            ErrorPolicy::Skip => seq![],
            ErrorPolicy::Replace => byte_items(repl),
        },
    }
}

/// What a stage puts out over a run of outcomes of its codec.
pub open spec fn policy_output(policy: ErrorPolicy, repl: Seq<u8>, os: Seq<Outcome>) -> Seq<Item>
    decreases os.len(),
{
    if os.len() == 0 {
        seq![]
    } else {
        policy_output(policy, repl, os.drop_last()) + unit_output(policy, repl, os.last())
    }
}

/// The bytes that a run of outcomes produced, errors left out.
pub open spec fn produced(os: Seq<Outcome>) -> Seq<u8>
    decreases os.len(),
{
    if os.len() == 0 {
        seq![]
    } else {
        produced(os.drop_last()) + match os.last() {
            Some(Ok(b)) => b,
            _ => seq![],
        }
    }
}

/// The bytes that a run of outcomes produced, with `repl` where each error was.
pub open spec fn produced_or_replaced(os: Seq<Outcome>, repl: Seq<u8>) -> Seq<u8>
    decreases os.len(),
{
    if os.len() == 0 {
        seq![]
    } else {
        produced_or_replaced(os.drop_last(), repl) + match os.last() {
            Some(Ok(b)) => b,
            Some(Err(_)) => repl,
            None => seq![],
        }
    }
}

pub(crate) proof fn lemma_byte_items_concat(a: Seq<u8>, b: Seq<u8>)
    ensures
        byte_items(a + b) == byte_items(a) + byte_items(b),
{
    assert(byte_items(a + b) =~= byte_items(a) + byte_items(b));
}

/// Under the skip policy a stage puts out exactly the bytes its codec
/// produced, with the faulty units left out.
pub proof fn lemma_skip_output(repl: Seq<u8>, os: Seq<Outcome>)
    ensures
        policy_output(ErrorPolicy::Skip, repl, os) == byte_items(produced(os)),
    decreases os.len(),
{
    if os.len() == 0 {
        assert(byte_items(Seq::<u8>::empty()) =~= Seq::<Item>::empty());
    } else {
        lemma_skip_output(repl, os.drop_last());
        match os.last() {
            Some(Ok(b)) => lemma_byte_items_concat(produced(os.drop_last()), b),
            _ => {
                assert(produced(os) =~= produced(os.drop_last()));
                assert(policy_output(ErrorPolicy::Skip, repl, os) =~= policy_output(ErrorPolicy::Skip, repl, os.drop_last()));
            },
        }
    }
}

/// Under the replace policy a stage puts out the bytes its codec produced,
/// with the replacement bytes where each faulty unit was.
pub proof fn lemma_replace_output(repl: Seq<u8>, os: Seq<Outcome>)
    ensures
        policy_output(ErrorPolicy::Replace, repl, os) == byte_items(produced_or_replaced(os, repl)),
    decreases os.len(),
{
    if os.len() == 0 {
        assert(byte_items(Seq::<u8>::empty()) =~= Seq::<Item>::empty());
    } else {
        lemma_replace_output(repl, os.drop_last());
        match os.last() {
            Some(Ok(b)) => lemma_byte_items_concat(produced_or_replaced(os.drop_last(), repl), b),
            Some(Err(_)) => lemma_byte_items_concat(produced_or_replaced(os.drop_last(), repl), repl),
            None => {
                assert(produced_or_replaced(os, repl) =~= produced_or_replaced(os.drop_last(), repl));
                assert(policy_output(ErrorPolicy::Replace, repl, os) =~= policy_output(ErrorPolicy::Replace, repl, os.drop_last()));
            },
        }
    }
}

/// Under the halt policy, when the codec's first error comes after a run of
/// good outcomes, a stage puts out exactly the bytes produced before it and
/// then that error.
pub proof fn lemma_halt_output(repl: Seq<u8>, good: Seq<Outcome>, e: CodeError, rest: Seq<Outcome>)
    requires
        forall|i: int| 0 <= i < good.len() ==> !((#[trigger] good[i]) matches Some(Err(_))),
    ensures
        policy_output(ErrorPolicy::Halt, repl, good.push(Some(Err(e))) + rest).len() >= produced(good).len() + 1,
        policy_output(ErrorPolicy::Halt, repl, good.push(Some(Err(e))) + rest).take(
            (produced(good).len() + 1) as int,
        ) == byte_items(produced(good)).push(Err::<u8, CodeError>(e)),
    decreases rest.len(),
{
    let os = good.push(Some(Err(e))) + rest;
    if rest.len() == 0 {
        assert(os.drop_last() =~= good);
        lemma_halt_prefix(repl, good);
        assert(policy_output(ErrorPolicy::Halt, repl, os) =~= byte_items(produced(good)).push(Err::<u8, CodeError>(e)));
    } else {
        lemma_halt_output(repl, good, e, rest.drop_last());
        assert(os.drop_last() =~= good.push(Some(Err(e))) + rest.drop_last());
        let before = policy_output(ErrorPolicy::Halt, repl, os.drop_last());
        assert(policy_output(ErrorPolicy::Halt, repl, os).take((produced(good).len() + 1) as int)
            =~= before.take((produced(good).len() + 1) as int));
    }
}

proof fn lemma_halt_prefix(repl: Seq<u8>, good: Seq<Outcome>)
    requires
        forall|i: int| 0 <= i < good.len() ==> !((#[trigger] good[i]) matches Some(Err(_))),
    ensures
        policy_output(ErrorPolicy::Halt, repl, good) == byte_items(produced(good)),
    decreases good.len(),
{
    if good.len() == 0 {
        assert(byte_items(Seq::<u8>::empty()) =~= Seq::<Item>::empty());
    } else {
        assert(good.last() == good[good.len() - 1]);
        assert forall|i: int| 0 <= i < good.drop_last().len() implies !((#[trigger] good.drop_last()[i]) matches Some(Err(_))) by {
            assert(good.drop_last()[i] == good[i]);
        }
        lemma_halt_prefix(repl, good.drop_last());
        match good.last() {
            Some(Ok(b)) => lemma_byte_items_concat(produced(good.drop_last()), b),
            _ => {
                assert(produced(good) =~= produced(good.drop_last()));
                assert(policy_output(ErrorPolicy::Halt, repl, good) =~= policy_output(ErrorPolicy::Halt, repl, good.drop_last()));
            },
        }
    }
}

/// `e2` is `e` named after the stage `name`.
pub open spec fn named(e2: CodeError, e: CodeError, name: Seq<char>) -> bool {
    &&& e2.message == e.message
    &&& e2.bad_bytes == e.bad_bytes
    &&& e2.inner == e.inner
    &&& e2.encoding_name matches Some(n) && n@ == name
}

/// The outcome a stage records for a result of its codec: the result
/// itself, with an error named after the stage under the halt policy.
pub open spec fn recorded(o: Outcome, r: Option<Result<Vec<u8>, CodeError>>, policy: ErrorPolicy, name: Seq<char>) -> bool {
    match r {
        None => o is None,
        Some(Ok(b)) => o == Some(Ok::<Seq<u8>, CodeError>(b@)),
        Some(Err(e)) => match o {
            Some(Err(e2)) => if policy == ErrorPolicy::Halt {
                named(e2, e, name)
            } else {
                e2 == e
            },
            _ => false,
        },
    }
}

/// The sequences of `s` one after another.
pub open spec fn concat_all(s: Seq<Seq<Item>>) -> Seq<Item>
    decreases s.len(),
{
    if s.len() == 0 {
        seq![]
    } else {
        concat_all(s.drop_last()) + s.last()
    }
}

proof fn lemma_concat_empty_tail(s: Seq<Seq<Item>>, k: int)
    requires
        0 <= k <= s.len(),
        forall|i: int| k <= i < s.len() ==> (#[trigger] s[i]).len() == 0,
    ensures
        concat_all(s) == concat_all(s.take(k)),
    decreases s.len(),
{
    if s.len() > k {
        assert(s.drop_last().take(k) =~= s.take(k));
        lemma_concat_empty_tail(s.drop_last(), k);
        assert(concat_all(s) =~= concat_all(s.drop_last()));
    } else {
        assert(s.take(k) =~= s);
    }
}

/// What a stage gives when pulled.
pub enum Pull {
    /// The next item of its output.
    Ready(Item),
    /// Its output is at an end.
    End,
    /// It cannot go on until more input is fed to it.
    NeedInput,
}

/// A stage: a codec bound to its input, handing out its output one byte at
/// a time and applying the error policy to the codec's errors. Its input is
/// either given whole, or fed to it piece by piece and then closed; while
/// more may come, it calls its codec only on input that settles the call.
pub struct Encoder {
    encoding: Codec,
    encoding_name: String,
    input: BufferedInput,
    closed: bool,
    output_buffer: Vec<u8>,
    error_policy: ErrorPolicy,
    states: Ghost<Seq<(Codec, Seq<Item>)>>,
    results: Ghost<Seq<Option<Result<Vec<u8>, CodeError>>>>,
    ends: Ghost<Seq<Seq<Item>>>,
    feeds: Ghost<Seq<Seq<Item>>>,
    outcomes: Ghost<Seq<Outcome>>,
    delivered: Ghost<Seq<Item>>,
}

impl Encoder {
    /// The codec in its present state.
    pub closed spec fn codec(&self) -> Codec {
        self.encoding
    }

    /// The input not read yet.
    pub closed spec fn remaining(&self) -> Seq<Item> {
        self.input@
    }

    /// No more input will come.
    pub closed spec fn is_closed(&self) -> bool {
        self.closed
    }

    /// The codec and its input before each call of the codec so far, and
    /// the present ones.
    pub closed spec fn states(&self) -> Seq<(Codec, Seq<Item>)> {
        self.states@
    }

    /// What each call of the codec so far returned.
    pub closed spec fn results(&self) -> Seq<Option<Result<Vec<u8>, CodeError>>> {
        self.results@
    }

    /// The input each call of the codec left.
    pub closed spec fn ends(&self) -> Seq<Seq<Item>> {
        self.ends@
    }

    /// The input fed after each call of the codec, before the next.
    pub closed spec fn feeds(&self) -> Seq<Seq<Item>> {
        self.feeds@
    }

    /// The outcomes of the codec so far, as the stage recorded them.
    pub closed spec fn outcomes(&self) -> Seq<Outcome> {
        self.outcomes@
    }

    /// The items handed out so far.
    pub closed spec fn delivered(&self) -> Seq<Item> {
        self.delivered@
    }

    /// Bytes produced and not handed out yet.
    pub closed spec fn queued(&self) -> Seq<u8> {
        self.output_buffer@
    }

    pub closed spec fn policy(&self) -> ErrorPolicy {
        self.error_policy
    }

    pub closed spec fn name(&self) -> Seq<char> {
        self.encoding_name@
    }

    pub closed spec fn replacement(&self) -> Seq<u8> {
        self.encoding.spec_replacement()
    }

    /// All input the stage has received: what it held before its first call
    /// of the codec, then what was fed after each call.
    pub open spec fn received(&self) -> Seq<Item> {
        self.states()[0].1 + concat_all(self.feeds())
    }

    /// Each call of the codec so far went from one recorded state to the
    /// input it left, as the codec states it, on the stage's own input; the
    /// next call started from what was left plus what was fed meanwhile; and
    /// each outcome is what that call returned.
    pub open spec fn history_ok(&self) -> bool {
        &&& self.states().len() == self.results().len() + 1
        &&& self.ends().len() == self.results().len()
        &&& self.feeds().len() == self.results().len()
        &&& self.outcomes().len() == self.results().len()
        &&& self.states().last() == (self.codec(), self.remaining())
        &&& forall|i: int|
            0 <= i < self.results().len() ==> Codec::step(
                #[trigger] self.states()[i].0,
                self.states()[i].1,
                self.results()[i],
                self.states()[i + 1].0,
                self.ends()[i],
            )
        &&& forall|i: int|
            0 <= i < self.results().len() ==> #[trigger] self.states()[i + 1].1 == self.ends()[i] + self.feeds()[i]
        &&& forall|i: int|
            0 <= i < self.results().len() ==> recorded(
                #[trigger] self.outcomes()[i],
                self.results()[i],
                self.policy(),
                self.name(),
            )
    }

    /// Everything handed out or queued is what the policy makes of the
    /// codec's outcomes.
    pub open spec fn output_ok(&self) -> bool {
        self.delivered() + byte_items(self.queued()) == policy_output(self.policy(), self.replacement(), self.outcomes())
    }

    pub closed spec fn wf(&self) -> bool {
        &&& self.encoding.wf()
        &&& self.encoding.pending() <= 1
        &&& self.history_ok()
        &&& self.output_ok()
    }

    /// A stage reading the whole of `input` through `encoding`.
    pub fn new(input: Vec<Item>, encoding: Codec, enc_name: &str, error_policy: ErrorPolicy) -> (r: Encoder)
        requires
            encoding.wf(),
            encoding.pending() <= 1,
        ensures
            r.wf(),
            r.history_ok(),
            r.output_ok(),
            r.is_closed(),
            r.received() == input@,
            r.codec() == encoding,
            r.remaining() == input@,
            r.states() == seq![(encoding, input@)],
            r.results() == Seq::<Option<Result<Vec<u8>, CodeError>>>::empty(),
            r.outcomes() == Seq::<Outcome>::empty(),
            r.delivered() == Seq::<Item>::empty(),
            r.queued() == Seq::<u8>::empty(),
            r.policy() == error_policy,
            r.name() == enc_name@,
            r.replacement() == encoding.spec_replacement(),
    {
        let mut r = Encoder::open(encoding, enc_name, error_policy);
        r.feed(input);
        r.end_input();
        r
    }

    /// A stage with no input yet, to be fed with `feed` and closed with
    /// `end_input`.
    pub fn open(encoding: Codec, enc_name: &str, error_policy: ErrorPolicy) -> (r: Encoder)
        requires
            encoding.wf(),
            encoding.pending() <= 1,
        ensures
            r.wf(),
            r.history_ok(),
            r.output_ok(),
            !r.is_closed(),
            r.received() == Seq::<Item>::empty(),
            r.codec() == encoding,
            r.remaining() == Seq::<Item>::empty(),
            r.states() == seq![(encoding, Seq::<Item>::empty())],
            r.results() == Seq::<Option<Result<Vec<u8>, CodeError>>>::empty(),
            r.outcomes() == Seq::<Outcome>::empty(),
            r.delivered() == Seq::<Item>::empty(),
            r.queued() == Seq::<u8>::empty(),
            r.policy() == error_policy,
            r.name() == enc_name@,
            r.replacement() == encoding.spec_replacement(),
    {
        let input = BufferedInput::new(Vec::new());
        let ghost start = (encoding, input@);
        let r = Encoder {
            encoding,
            encoding_name: enc_name.to_owned(),
            input,
            closed: false,
            output_buffer: Vec::new(),
            error_policy,
            states: Ghost(Seq::empty().push(start)),
            results: Ghost(Seq::empty()),
            ends: Ghost(Seq::empty()),
            feeds: Ghost(Seq::empty()),
            outcomes: Ghost(Seq::empty()),
            delivered: Ghost(Seq::empty()),
        };
        assert(byte_items(r.output_buffer@) =~= Seq::<Item>::empty());
        assert(r.states@ =~= seq![(encoding, Seq::<Item>::empty())]);
        r
    }

    /// Hands the stage more input, after all it has.
    pub fn feed(&mut self, items: Vec<Item>)
        requires
            old(self).wf(),
            !old(self).is_closed(),
        ensures
            final(self).wf(),
            final(self).history_ok(),
            final(self).output_ok(),
            !final(self).is_closed(),
            final(self).received() == old(self).received() + items@,
            final(self).remaining() == old(self).remaining() + items@,
            final(self).codec() == old(self).codec(),
            final(self).states() == old(self).states().update(
                old(self).states().len() - 1,
                (old(self).codec(), old(self).remaining() + items@),
            ),
            final(self).results() == old(self).results(),
            final(self).ends() == old(self).ends(),
            old(self).results().len() == 0 ==> final(self).feeds() == old(self).feeds(),
            old(self).results().len() > 0 ==> final(self).feeds() == old(self).feeds().update(
                old(self).feeds().len() - 1,
                old(self).feeds().last() + items@,
            ),
            final(self).outcomes() == old(self).outcomes(),
            final(self).delivered() == old(self).delivered(),
            final(self).queued() == old(self).queued(),
            final(self).policy() == old(self).policy(),
            final(self).name() == old(self).name(),
            final(self).replacement() == old(self).replacement(),
    {
        let ghost items_v = items@;
        self.input.feed(items);
        proof {
            let n = self.states@.len() - 1;
            self.states@ = self.states@.update(n, (self.encoding, self.input@));
            if self.results@.len() == 0 {
                assert(self.feeds@.len() == 0);
                assert(self.states@[0].1 + concat_all(self.feeds@) =~= old(self).states@[0].1 + concat_all(old(self).feeds@) + items_v);
            }
            if self.results@.len() > 0 {
                let k = self.feeds@.len() - 1;
                let f = self.feeds@;
                assert(old(self).states()[k + 1].1 == old(self).ends()[k] + old(self).feeds()[k]);
                assert(k + 1 == n);
                self.feeds@ = f.update(k, f.last() + items_v);
                assert(self.feeds@.drop_last() =~= f.drop_last());
                assert(concat_all(self.feeds@) =~= concat_all(f) + items_v);
                assert(self.states@[0] == old(self).states@[0]);
                assert(self.ends@[k] + self.feeds@[k] =~= old(self).ends@[k] + old(self).feeds@[k] + items_v);
                assert(self.states@[k + 1].1 == self.ends@[k] + self.feeds@[k]);
            }
            assert forall|i: int| 0 <= i < self.results@.len() implies Codec::step(
                #[trigger] self.states@[i].0,
                self.states@[i].1,
                self.results@[i],
                self.states@[i + 1].0,
                self.ends@[i],
            ) by {
                if i + 1 < n {
                    assert(self.states@[i + 1] == old(self).states@[i + 1]);
                }
                assert(self.states@[i].0 == old(self).states@[i].0);
                assert(self.states@[i].1 == old(self).states@[i].1);
                assert(self.states@[i + 1].0 == old(self).states@[i + 1].0);
            }
            assert forall|i: int| 0 <= i < self.results@.len() implies #[trigger] self.states@[i + 1].1 == self.ends@[i]
                + self.feeds@[i] by {
                if i + 1 < n {
                    assert(self.states@[i + 1] == old(self).states@[i + 1]);
                    assert(self.feeds@[i] == old(self).feeds@[i]);
                }
            }
        }
    }

    /// Tells the stage that no more input will come.
    pub fn end_input(&mut self)
        requires
            old(self).wf(),
        ensures
            final(self).wf(),
            final(self).is_closed(),
            final(self).received() == old(self).received(),
            final(self).remaining() == old(self).remaining(),
            final(self).codec() == old(self).codec(),
            final(self).states() == old(self).states(),
            final(self).results() == old(self).results(),
            final(self).ends() == old(self).ends(),
            final(self).feeds() == old(self).feeds(),
            final(self).outcomes() == old(self).outcomes(),
            final(self).delivered() == old(self).delivered(),
            final(self).queued() == old(self).queued(),
            final(self).policy() == old(self).policy(),
            final(self).name() == old(self).name(),
            final(self).replacement() == old(self).replacement(),
    {
        self.closed = true;
    }

    /// The next item of the stage's output: a queued byte if there is one;
    /// else the codec is run until it gives some bytes, an error that the policy
    /// does not skip, or its end. Under the halt policy the error is handed
    /// out, named after the stage; under replace, the codec's replacement
    /// bytes stand in its place. A halting error is handed out by the call
    /// that met it, so no second error can be waiting behind it. While the
    /// input is not closed and what it holds does not settle the codec's
    /// next call, the stage asks for more input instead.
    pub fn pull(&mut self) -> (r: Pull)
        requires
            old(self).wf(),
        ensures
            final(self).wf(),
            final(self).history_ok(),
            final(self).output_ok(),
            final(self).is_closed() == old(self).is_closed(),
            final(self).received() == old(self).received(),
            final(self).policy() == old(self).policy(),
            final(self).name() == old(self).name(),
            final(self).replacement() == old(self).replacement(),
            old(self).results().len() <= final(self).results().len(),
            final(self).states().take(old(self).states().len() as int) == old(self).states(),
            final(self).results().take(old(self).results().len() as int) == old(self).results(),
            final(self).ends().take(old(self).ends().len() as int) == old(self).ends(),
            final(self).feeds().take(old(self).feeds().len() as int) == old(self).feeds(),
            forall|i: int| old(self).feeds().len() <= i < final(self).feeds().len() ==> (#[trigger] final(self).feeds()[i]).len() == 0,
            final(self).outcomes().take(old(self).outcomes().len() as int) == old(self).outcomes(),
            old(self).queued().len() > 0 ==> {
                &&& r == Pull::Ready(Ok::<u8, CodeError>(old(self).queued()[0]))
                &&& final(self).queued() == old(self).queued().drop_first()
                &&& final(self).states() == old(self).states()
                &&& final(self).results() == old(self).results()
                &&& final(self).outcomes() == old(self).outcomes()
            },
            (old(self).queued().len() == 0 && !(r is NeedInput)) ==> final(self).results().len() > old(self).results().len(),
            r is NeedInput ==> {
                &&& !old(self).is_closed()
                &&& final(self).delivered() == old(self).delivered()
                &&& final(self).queued().len() == 0
            },
            r matches Pull::Ready(x) ==> final(self).delivered() == old(self).delivered().push(x),
            r is End ==> {
                &&& final(self).delivered() == old(self).delivered()
                &&& final(self).queued().len() == 0
                &&& final(self).results().last() is None
                &&& final(self).outcomes().last() is None
            },
            (old(self).queued().len() == 0 && r is Ready && r->Ready_0 is Err) ==> final(self).outcomes().last() == Some(
                Err::<Seq<u8>, CodeError>(r->Ready_0->Err_0),
            ),
            (r is Ready && r->Ready_0 is Err) ==> (r->Ready_0->Err_0.encoding_name matches Some(n) && n@ == old(self).name()),
    {
        let ghost start = self.outcomes@;
        let ghost start_states = self.states@;
        let ghost start_results = self.results@;
        let ghost start_ends = self.ends@;
        let ghost start_feeds = self.feeds@;
        if self.output_buffer.len() == 0 {
            let mut done = false;
            let mut need = false;
            let mut halted: Option<CodeError> = None;
            while !done
                invariant
                    self.encoding.wf(),
                    self.encoding.pending() <= 1,
                    self.encoding.spec_replacement() == old(self).encoding.spec_replacement(),
                    self.encoding_name == old(self).encoding_name,
                    self.error_policy == old(self).error_policy,
                    self.closed == old(self).closed,
                    self.delivered@ == old(self).delivered@,
                    self.outcomes@.take(start.len() as int) == start,
                    self.states@.take(start_states.len() as int) == start_states,
                    self.results@.take(start_results.len() as int) == start_results,
                    self.ends@.take(start_ends.len() as int) == start_ends,
                    self.feeds@.take(start_feeds.len() as int) == start_feeds,
                    forall|i: int| start_feeds.len() <= i < self.feeds@.len() ==> (#[trigger] self.feeds@[i]).len() == 0,
                    start.len() <= self.outcomes@.len(),
                    start_results.len() <= self.results@.len(),
                    done && !need ==> start_results.len() < self.results@.len(),
                    need ==> done && halted is None && self.output_buffer@.len() == 0 && !self.closed,
                    start == old(self).outcomes@,
                    start_states == old(self).states@,
                    start_results == old(self).results@,
                    start_ends == old(self).ends@,
                    start_feeds == old(self).feeds@,
                    old(self).wf(),
                    self.history_ok(),
                    old(self).output_buffer@.len() == 0,
                    !done ==> self.output_buffer@.len() == 0 && halted is None,
                    halted is Some ==> self.output_buffer@.len() == 0,
                    done && !need && halted is None && self.output_buffer@.len() == 0 ==> self.outcomes@.last() is None
                        && self.results@.last() is None,
                    halted matches Some(e) ==> e.encoding_name matches Some(n) && n@ == self.encoding_name@ && self.outcomes@.last()
                        == Some(Err::<Seq<u8>, CodeError>(e)),
                    self.delivered@ + byte_items(self.output_buffer@) + match halted {
                        Some(e) => seq![Err::<u8, CodeError>(e)],
                        None => Seq::<Item>::empty(),
                    } == policy_output(self.error_policy, self.encoding.spec_replacement(), self.outcomes@),
                decreases (if done { 0 } else { 2 * self.input@.len() + self.encoding.pending() + 1 }),
            {
                if !self.closed && !self.encoding.ready(&self.input) {
                    need = true;
                    done = true;
                } else {
                    let ghost before = self.outcomes@;
                    let ghost states_before = self.states@;
                    let ghost results_before = self.results@;
                    let ghost ends_before = self.ends@;
                    let ghost feeds_before = self.feeds@;
                    let result = self.encoding.next(&mut self.input);
                    let ghost raw = result;
                    proof {
                        self.states@ = states_before.push((self.encoding, self.input@));
                        self.results@ = results_before.push(raw);
                        self.ends@ = ends_before.push(self.input@);
                        self.feeds@ = feeds_before.push(Seq::empty());
                        assert(self.states@.take(start_states.len() as int) =~= start_states);
                        assert(self.results@.take(start_results.len() as int) =~= start_results);
                        assert(self.ends@.take(start_ends.len() as int) =~= start_ends);
                        assert(self.feeds@.take(start_feeds.len() as int) =~= start_feeds);
                    }
                    match result {
                        Some(Ok(bytes)) => {
                            let mut bytes = bytes;
                            if bytes.len() > 0 {
                                done = true;
                            }
                            proof {
                                self.outcomes@ = before.push(Some(Ok(bytes@)));
                                assert(self.outcomes@.drop_last() == before);
                                assert(byte_items(Seq::<u8>::empty()) =~= Seq::<Item>::empty());
                            }
                            self.output_buffer.append(&mut bytes);
                        },
                        Some(Err(e)) => {
                            match self.error_policy {
                                ErrorPolicy::Halt => {
                                    let named = e.with_name(self.encoding_name.as_str());
                                    proof {
                                        self.outcomes@ = before.push(Some(Err(named)));
                                        assert(self.outcomes@.drop_last() == before);
                                        assert(byte_items(Seq::<u8>::empty()) =~= Seq::<Item>::empty());
                                    }
                                    halted = Some(named);
                                    done = true;
                                },
                                ErrorPolicy::Skip => {
                                    proof {
                                        self.outcomes@ = before.push(Some(Err(e)));
                                        assert(self.outcomes@.drop_last() == before);
                                    }
                                },
                                ErrorPolicy::Replace => {
                                    let mut repl = self.encoding.replacement();
                                    proof {
                                        self.outcomes@ = before.push(Some(Err(e)));
                                        assert(self.outcomes@.drop_last() == before);
                                        assert(byte_items(Seq::<u8>::empty()) =~= Seq::<Item>::empty());
                                    }
                                    if repl.len() > 0 {
                                        done = true;
                                    }
                                    self.output_buffer.append(&mut repl);
                                },
                            }
                        },
                        None => {
                            proof {
                                self.outcomes@ = before.push(None);
                                assert(self.outcomes@.drop_last() == before);
                            }
                            done = true;
                        },
                    }
                    proof {
                        assert(self.outcomes@.take(start.len() as int) =~= start);
                        assert forall|i: int| 0 <= i < self.results@.len() implies Codec::step(
                            #[trigger] self.states@[i].0,
                            self.states@[i].1,
                            self.results@[i],
                            self.states@[i + 1].0,
                            self.ends@[i],
                        ) by {
                            if i < results_before.len() {
                                assert(self.states@[i] == states_before[i]);
                                assert(self.states@[i + 1] == states_before[i + 1]);
                                assert(self.ends@[i] == ends_before[i]);
                            }
                        }
                        assert forall|i: int| 0 <= i < self.results@.len() implies #[trigger] self.states@[i + 1].1
                            == self.ends@[i] + self.feeds@[i] by {
                            if i < results_before.len() {
                                assert(self.states@[i + 1] == states_before[i + 1]);
                                assert(self.ends@[i] == ends_before[i]);
                                assert(self.feeds@[i] == feeds_before[i]);
                            } else {
                                assert(self.ends@[i] + self.feeds@[i] =~= self.ends@[i]);
                            }
                        }
                        assert forall|i: int| 0 <= i < self.results@.len() implies recorded(
                            #[trigger] self.outcomes@[i],
                            self.results@[i],
                            self.error_policy,
                            self.encoding_name@,
                        ) by {
                            if i < results_before.len() {
                                assert(self.outcomes@[i] == before[i]);
                            }
                        }
                        assert forall|i: int| start_feeds.len() <= i < self.feeds@.len() implies (#[trigger] self.feeds@[i]).len()
                            == 0 by {
                            if i < feeds_before.len() {
                                assert(self.feeds@[i] == feeds_before[i]);
                            }
                        }
                    }
                }
            }
            if need {
                proof {
                    self.lemma_received_kept(start_states, start_feeds);
                }
                return Pull::NeedInput;
            }
            if let Some(e) = halted {
                proof {
                    self.delivered@ = self.delivered@.push(Err(e));
                    assert(byte_items(self.output_buffer@) =~= Seq::<Item>::empty());
                }
                proof {
                    self.lemma_received_kept(start_states, start_feeds);
                }
                return Pull::Ready(Err(e));
            }
        }
        if self.output_buffer.len() > 0 {
            let ghost q = self.output_buffer@;
            let b = self.output_buffer.remove(0);
            proof {
                self.delivered@ = self.delivered@.push(Ok(b));
                assert(self.delivered@ + byte_items(self.output_buffer@) =~= old(self).delivered@.push(Ok(b))
                    + byte_items(q).drop_first());
                assert(old(self).delivered@ + byte_items(q) =~= old(self).delivered@.push(Ok(b))
                    + byte_items(q).drop_first());
                assert(self.states@.take(start_states.len() as int) =~= start_states);
                assert(self.results@.take(start_results.len() as int) =~= start_results);
                assert(self.ends@.take(start_ends.len() as int) =~= start_ends);
                assert(self.feeds@.take(start_feeds.len() as int) =~= start_feeds);
                assert(self.outcomes@.take(start.len() as int) =~= start);
            }
            proof {
                self.lemma_received_kept(start_states, start_feeds);
            }
            return Pull::Ready(Ok(b));
        }
        proof {
            assert(byte_items(self.output_buffer@) =~= Seq::<Item>::empty());
            self.lemma_received_kept(start_states, start_feeds);
        }
        Pull::End
    }

    proof fn lemma_received_kept(&self, old_states: Seq<(Codec, Seq<Item>)>, old_feeds: Seq<Seq<Item>>)
        requires
            old_states.len() >= 1,
            old_states.len() <= self.states().len(),
            self.states().take(old_states.len() as int) == old_states,
            self.feeds().take(old_feeds.len() as int) == old_feeds,
            old_feeds.len() <= self.feeds().len(),
            forall|i: int| old_feeds.len() <= i < self.feeds().len() ==> (#[trigger] self.feeds()[i]).len() == 0,
        ensures
            self.received() == old_states[0].1 + concat_all(old_feeds),
    {
        assert(self.states()[0] == self.states().take(old_states.len() as int)[0]);
        lemma_concat_empty_tail(self.feeds(), old_feeds.len() as int);
    }

    /// The next item of the output of a stage whose input is closed; `None`
    /// once the output is at an end. See `pull`.
    pub fn next(&mut self) -> (r: Option<Item>)
        requires
            old(self).wf(),
            old(self).is_closed(),
        ensures
            final(self).wf(),
            final(self).history_ok(),
            final(self).output_ok(),
            final(self).is_closed(),
            final(self).received() == old(self).received(),
            final(self).policy() == old(self).policy(),
            final(self).name() == old(self).name(),
            final(self).replacement() == old(self).replacement(),
            old(self).results().len() <= final(self).results().len(),
            final(self).states().take(old(self).states().len() as int) == old(self).states(),
            final(self).results().take(old(self).results().len() as int) == old(self).results(),
            final(self).ends().take(old(self).ends().len() as int) == old(self).ends(),
            final(self).feeds().take(old(self).feeds().len() as int) == old(self).feeds(),
            forall|i: int| old(self).feeds().len() <= i < final(self).feeds().len() ==> (#[trigger] final(self).feeds()[i]).len() == 0,
            final(self).outcomes().take(old(self).outcomes().len() as int) == old(self).outcomes(),
            old(self).queued().len() > 0 ==> {
                &&& r == Some(Ok::<u8, CodeError>(old(self).queued()[0]))
                &&& final(self).queued() == old(self).queued().drop_first()
                &&& final(self).states() == old(self).states()
                &&& final(self).results() == old(self).results()
                &&& final(self).outcomes() == old(self).outcomes()
            },
            old(self).queued().len() == 0 ==> final(self).results().len() > old(self).results().len(),
            r matches Some(x) ==> final(self).delivered() == old(self).delivered().push(x),
            r is None ==> {
                &&& final(self).delivered() == old(self).delivered()
                &&& final(self).queued().len() == 0
                &&& final(self).results().last() is None
                &&& final(self).outcomes().last() is None
            },
            (old(self).queued().len() == 0 && r is Some && r->Some_0 is Err) ==> final(self).outcomes().last() == Some(
                Err::<Seq<u8>, CodeError>(r->Some_0->Err_0),
            ),
            (r is Some && r->Some_0 is Err) ==> (r->Some_0->Err_0.encoding_name matches Some(n) && n@ == old(self).name()),
    {
        match self.pull() {
            Pull::Ready(x) => Some(x),
            _ => None,
        }
    }
}

} // verus!
