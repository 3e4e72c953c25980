use vstd::prelude::*;

verus! {

/// Capacity, in code units, of every bounded string.
pub const MAXLEN: usize = 1024;

/// The first `n` code units of `s`, or all of `s` when it is shorter.
pub open spec fn prefix_of(s: Seq<char>, n: nat) -> Seq<char> {
    if n < s.len() {
        s.take(n as int)
    } else {
        s
    }
}

/// What a bounded string keeps of a text: at most `MAXLEN` leading code units.
pub open spec fn encoded(s: Seq<char>) -> Seq<char> {
    prefix_of(s, MAXLEN as nat)
}

/// A length-prefixed text of at most `MAXLEN` code units.
pub struct Str {
    length: usize,
    data: Vec<char>,
}

impl View for Str {
    type V = Seq<char>;

    closed spec fn view(&self) -> Seq<char> {
        self.data@
    }
}

impl Str {
    /// The stored length agrees with the data, which fits the capacity.
    #[verifier::type_invariant]
    closed spec fn wf(&self) -> bool {
        &&& self.length == self.data@.len()
        &&& self.length <= MAXLEN
    }

    /// Builds a bounded string from a text whose declared length is `len_u32`:
    /// keeps the first `len_u32` code units of `data_string`, truncated to `MAXLEN`.
    pub fn new(len_u32: usize, data_string: String) -> (r: Str)
        ensures
            r@ == encoded(prefix_of(data_string@, len_u32 as nat)),
    {
        let text = data_string.as_str();
        let total = text.unicode_len();
        let mut keep = if len_u32 < total { len_u32 } else { total };
        if keep > MAXLEN {
            keep = MAXLEN;
        }
        let mut data: Vec<char> = Vec::new();
        let mut i: usize = 0;
        while i < keep
            invariant
                keep <= total,
                total == text@.len(),
                text@ == data_string@,
                i <= keep,
                data@ == text@.take(i as int),
            decreases keep - i,
        {
            data.push(text.get_char(i));
            i = i + 1;
            assert(data@ =~= text@.take(i as int));
        }
        assert(data@ =~= encoded(prefix_of(data_string@, len_u32 as nat)));
        Str { length: keep, data }
    }

    /// Encodes a text, truncating it to its first `MAXLEN` code units; never fails.
    pub fn encode(text: &str) -> (r: Str)
        ensures
            r@ == encoded(text@),
    {
        let n = text.unicode_len();
        let r = Str::new(n, text.to_string());
        proof {
            assert(prefix_of(text@, n as nat) == text@);
        }
        r
    }

    /// The text, exactly `length` code units; never fails.
    pub fn decode(&self) -> (r: String)
        ensures
            r@ == self@,
    {
        chars_to_string(&self.data)
    }

    /// Number of code units held.
    pub fn len(&self) -> (r: usize)
        ensures
            r == self@.len(),
            r <= MAXLEN,
    {
        proof {
            use_type_invariant(self);
        }
        self.length
    }

    /// Whether both strings hold the same code units.
    pub fn same_text(&self, other: &Str) -> (r: bool)
        ensures
            r == (self@ == other@),
    {
        same_chars(&self.data, &other.data)
    }

    /// An independent copy of this string.
    pub fn duplicate(&self) -> (r: Str)
        ensures
            r@ == self@,
    {
        proof {
            use_type_invariant(self);
        }
        Str { length: self.length, data: copy_chars(&self.data) }
    }
}

/// Why a material-property string could not be built.
#[derive(Debug, PartialEq, Eq, Structural)]
pub enum StringError {
    /// The text's length does not fit the four-byte length counter.
    LengthOverflow,
}

/// Largest length a four-byte counter holds.
pub const MAX_COUNTER: usize = 0xffff_ffff;

/// A bounded string whose length is kept in a four-byte counter whatever the
/// width of the host's native length type.
pub struct MaterialPropertyStr {
    length: u32,
    data: Vec<char>,
}

impl View for MaterialPropertyStr {
    type V = Seq<char>;

    closed spec fn view(&self) -> Seq<char> {
        self.data@
    }
}

impl MaterialPropertyStr {
    /// The four-byte length agrees with the data, which fits the capacity.
    #[verifier::type_invariant]
    closed spec fn wf(&self) -> bool {
        &&& self.length as nat == self.data@.len()
        &&& self.length <= MAXLEN
    }

    /// Builds a material-property string from a text whose declared length is
    /// `len_u32`. A declared length above what four bytes count is rejected;
    /// otherwise the text is cut as for `Str::new`.
    pub fn new(len_u32: usize, data_string: String) -> (r: Result<MaterialPropertyStr, StringError>)
        ensures
            len_u32 > MAX_COUNTER <==> r is Err,
            r matches Ok(m) ==> m@ == encoded(prefix_of(data_string@, len_u32 as nat)),
    {
        if len_u32 > MAX_COUNTER {
            return Err(StringError::LengthOverflow);
        }
        let s = Str::new(len_u32, data_string);
        proof {
            use_type_invariant(&s);
        }
        let length = s.length as u32;
        Ok(MaterialPropertyStr { length, data: s.data })
    }

    /// Encodes a text as a material-property string, cut to `MAXLEN` code
    /// units; a text longer than four bytes can count is rejected.
    pub fn encode(text: &str) -> (r: Result<MaterialPropertyStr, StringError>)
        ensures
            text@.len() > MAX_COUNTER <==> r is Err,
            r matches Ok(m) ==> m@ == encoded(text@),
    {
        let n = text.unicode_len();
        let r = MaterialPropertyStr::new(n, text.to_string());
        proof {
            assert(prefix_of(text@, n as nat) == text@);
        }
        r
    }

    /// The stored four-byte length.
    pub fn length_u32(&self) -> (r: u32)
        ensures
            r as nat == self@.len(),
            r <= MAXLEN,
    {
        proof {
            use_type_invariant(self);
        }
        self.length
    }

    /// The text, exactly `length` code units; never fails.
    pub fn decode(&self) -> (r: String)
        ensures
            r@ == self@,
    {
        chars_to_string(&self.data)
    }
}

/// Encoding then decoding gives back a text of at most `MAXLEN` code units
/// unchanged, and the first `MAXLEN` code units of a longer one; encoding the
/// kept text again changes nothing.
pub proof fn lemma_encode_round_trip(s: Seq<char>)
    ensures
        s.len() <= MAXLEN ==> encoded(s) == s,
        s.len() > MAXLEN ==> encoded(s) == s.take(MAXLEN as int) && encoded(s).len() == MAXLEN,
        encoded(encoded(s)) == encoded(s),
{
}

/// Relies on String::push: the character is appended at the end.
#[verifier::external_body]
fn push_char(s: &mut String, c: char)
    ensures
        final(s)@ == old(s)@.push(c),
{
    s.push(c)
}

/// Copies a sequence of code units into a fresh `String`.
fn chars_to_string(data: &Vec<char>) -> (r: String)
    ensures
        r@ == data@,
{
    let mut r = String::new();
    let mut i: usize = 0;
    while i < data.len()
        invariant
            i <= data@.len(),
            r@ == data@.take(i as int),
        decreases data@.len() - i,
    {
        push_char(&mut r, data[i]);
        i = i + 1;
        assert(r@ =~= data@.take(i as int));
    }
    assert(r@ =~= data@);
    r
}

/// Copies a sequence of code units into a fresh vector.
fn copy_chars(data: &Vec<char>) -> (r: Vec<char>)
    ensures
        r@ == data@,
{
    let mut r: Vec<char> = Vec::new();
    let mut i: usize = 0;
    while i < data.len()
        invariant
            i <= data@.len(),
            r@ == data@.take(i as int),
        decreases data@.len() - i,
    {
        r.push(data[i]);
        i = i + 1;
        assert(r@ =~= data@.take(i as int));
    }
    assert(r@ =~= data@);
    r
}

/// Whether two sequences of code units are equal.
fn same_chars(a: &Vec<char>, b: &Vec<char>) -> (r: bool)
    ensures
        r == (a@ == b@),
{
    if a.len() != b.len() {
        return false;
    }
    let mut i: usize = 0;
    while i < a.len()
        invariant
            a@.len() == b@.len(),
            i <= a@.len(),
            forall|k: int| 0 <= k < i ==> a@[k] == b@[k],
        decreases a@.len() - i,
    {
        if a[i] != b[i] {
            return false;
        }
        i = i + 1;
    }
    assert(a@ =~= b@);
    true
}

} // verus!
