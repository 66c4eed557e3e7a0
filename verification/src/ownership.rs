//! Values that move, values that are borrowed, and how long they live.

use vstd::prelude::*;
use vstd::string::StrSliceExecFns;
use crate::sums::{product_of, sum_of};
use crate::text::{
    find_char, index_of, lowercase_of, push_str, texts, to_chars, to_lowercase, to_string,
    to_uppercase, uppercase_of, words, words_of,
};

verus! {

pub fn create_message() -> (message: String)
    ensures
        message@ == "World"@,
{
    to_string(&to_chars("World"))
}

/// `message` behind a greeting.
pub fn add_greeting(message: String) -> (greeted: String)
    ensures
        greeted@ == "Hello, "@ + message@,
{
    let mut out: Vec<char> = Vec::new();
    push_str(&mut out, "Hello, ");
    push_str(&mut out, message.as_str());
    assert(out@ =~= "Hello, "@ + message@);
    to_string(&out)
}

/// `message` with an exclamation mark behind it.
pub fn add_punctuation(message: String) -> (marked: String)
    ensures
        marked@ == message@.push('!'),
{
    let mut message: String = message;
    message.push('!');
    message
}

/// The number of words in `text`, and `text` in capitals.
pub fn analyze_text(text: &str) -> (r: (usize, String))
    ensures
        r.0 == words_of(text@).len(),
        r.1@ == uppercase_of(text@),
{
    let all: Vec<Vec<char>> = words(&to_chars(text));
    assert(texts(all@).len() == all@.len());
    (all.len(), to_uppercase(text))
}

#[derive(Debug)]
pub struct TextAnalysis {
    pub original: String,
    pub word_count: usize,
    pub char_count: usize,
    pub uppercase: String,
    pub lowercase: String,
    pub reversed: String,
}

/// `text` itself, its numbers of words and characters, and `text` in
/// capitals, in small letters, and backwards.
pub fn analyze_text_detailed(text: &str) -> (analysis: TextAnalysis)
    ensures
        analysis.original@ == text@,
        analysis.word_count == words_of(text@).len(),
        analysis.char_count == text@.len(),
        analysis.uppercase@ == uppercase_of(text@),
        analysis.lowercase@ == lowercase_of(text@),
        analysis.reversed@ == text@.reverse(),
{
    let chars: Vec<char> = to_chars(text);
    let all: Vec<Vec<char>> = words(&chars);
    assert(texts(all@).len() == all@.len());
    let mut backwards: Vec<char> = Vec::new();
    let mut i: usize = chars.len();
    while i > 0
        invariant
            i <= chars.len(),
            backwards@.len() == chars.len() - i,
            forall|k: int| 0 <= k < backwards@.len() ==> backwards@[k] == chars@[chars.len() - 1 - k],
        decreases i,
    {
        i = i - 1;
        backwards.push(chars[i]);
    }
    assert(backwards@ =~= text@.reverse());
    TextAnalysis {
        original: to_string(&chars),
        word_count: all.len(),
        char_count: chars.len(),
        uppercase: to_uppercase(text),
        lowercase: to_lowercase(text),
        reversed: to_string(&backwards),
    }
}

/// The number of characters that `a` and `b` have in common from `from` on,
/// added to `from`.
pub open spec fn common_end(a: Seq<char>, b: Seq<char>, from: int) -> int
    decreases a.len() - from,
{
    if from < 0 || from >= a.len() || from >= b.len() || a[from] != b[from] {
        from
    } else {
        common_end(a, b, from + 1)
    }
}

/// The longest text with which both `s1` and `s2` start, as a part of `s1`.
pub fn longest_common_prefix<'a>(s1: &'a str, s2: &str) -> (prefix: &'a str)
    ensures
        prefix@ == s1@.take(common_end(s1@, s2@, 0)),
{
    let a: Vec<char> = to_chars(s1);
    let b: Vec<char> = to_chars(s2);
    let mut i: usize = 0;
    while i < a.len() && i < b.len() && a[i] == b[i]
        invariant
            i <= a.len(),
            i <= b.len(),
            a@ == s1@,
            b@ == s2@,
            common_end(s1@, s2@, 0) == common_end(s1@, s2@, i as int),
        decreases a.len() - i,
    {
        i = i + 1;
    }
    let prefix: &'a str = s1.substring_char(0, i);
    assert(s1@.subrange(0, i as int) =~= s1@.take(i as int));
    prefix
}

/// The numbers of `numbers`, as integers.
pub open spec fn integers(numbers: Seq<i32>) -> Seq<int> {
    numbers.map_values(|n: i32| n as int)
}

/// Whether `n` is a signed number of 32 bits.
pub open spec fn fits_i32(n: int) -> bool {
    i32::MIN <= n <= i32::MAX
}

/// The sum of `numbers`, added up from the first to the last.
pub fn calculate_sum(numbers: &Vec<i32>) -> (sum: i32)
    requires
        forall|k: int| 0 <= k <= numbers@.len() ==> fits_i32(#[trigger] sum_of(integers(numbers@).take(k))),
    ensures
        sum == sum_of(integers(numbers@)),
{
    let mut sum: i32 = 0;
    let mut i: usize = 0;
    assert(integers(numbers@).take(0) =~= Seq::<int>::empty());
    while i < numbers.len()
        invariant
            i <= numbers.len(),
            sum == sum_of(integers(numbers@).take(i as int)),
            forall|k: int|
                0 <= k <= numbers@.len() ==> fits_i32(#[trigger] sum_of(integers(numbers@).take(k))),
        decreases numbers.len() - i,
    {
        proof {
            assert(integers(numbers@).take(i + 1).drop_last() =~= integers(numbers@).take(
                i as int,
            ));
            assert(integers(numbers@).take(i + 1).last() == numbers@[i as int]);
            assert(fits_i32(sum_of(integers(numbers@).take(i + 1))));
        }
        sum = sum + numbers[i];
        i = i + 1;
    }
    assert(integers(numbers@).take(numbers@.len() as int) =~= integers(numbers@));
    sum
}

/// The product of `numbers`, multiplied from the first to the last.
pub fn calculate_product(numbers: Vec<i32>) -> (product: i32)
    requires
        forall|k: int|
            0 <= k <= numbers@.len() ==> fits_i32(#[trigger] product_of(integers(numbers@).take(k))),
    ensures
        product == product_of(integers(numbers@)),
{
    let mut product: i32 = 1;
    let mut i: usize = 0;
    assert(integers(numbers@).take(0) =~= Seq::<int>::empty());
    while i < numbers.len()
        invariant
            i <= numbers.len(),
            product == product_of(integers(numbers@).take(i as int)),
            forall|k: int|
                0 <= k <= numbers@.len() ==> fits_i32(
                    #[trigger] product_of(integers(numbers@).take(k)),
                ),
        decreases numbers.len() - i,
    {
        proof {
            assert(integers(numbers@).take(i + 1).drop_last() =~= integers(numbers@).take(
                i as int,
            ));
            assert(integers(numbers@).take(i + 1).last() == numbers@[i as int]);
            assert(fits_i32(product_of(integers(numbers@).take(i + 1))));
        }
        product = product * numbers[i];
        i = i + 1;
    }
    assert(integers(numbers@).take(numbers@.len() as int) =~= integers(numbers@));
    product
}

/// A passage of a book, with the page on which it stands.
pub struct BookExcerpt<'a> {
    pub content: &'a str,
    pub page: u32,
}

impl<'a> BookExcerpt<'a> {
    pub fn new(content: &'a str, page: u32) -> (excerpt: Self)
        ensures
            excerpt.content@ == content@,
            excerpt.page == page,
    {
        BookExcerpt { content, page }
    }

    /// The number of words in the passage.
    pub fn word_count(&self) -> (n: usize)
        ensures
            n == words_of(self.content@).len(),
    {
        let all: Vec<Vec<char>> = words(&to_chars(self.content));
        assert(texts(all@).len() == all@.len());
        all.len()
    }

    /// The passage up to its first full stop, or all of it where it has
    /// none.
    pub fn first_sentence(&self) -> (sentence: &str)
        ensures
            sentence@ == self.content@.take(index_of(self.content@, '.', 0)),
    {
        let chars: Vec<char> = to_chars(self.content);
        let end: usize = find_char(&chars, '.', 0);
        let sentence: &str = self.content.substring_char(0, end);
        assert(self.content@.subrange(0, end as int) =~= self.content@.take(end as int));
        sentence
    }
}

/// A text that is either owned or borrowed.
pub enum StringOrRef<'a> {
    Owned(String),
    Borrowed(&'a str),
}

impl<'a> View for StringOrRef<'a> {
    type V = Seq<char>;

    open spec fn view(&self) -> Seq<char> {
        match self {
            StringOrRef::Owned(text) => text@,
            StringOrRef::Borrowed(text) => text@,
        }
    }
}

/// The greeting `custom`, borrowed, or the usual one, owned.
pub fn get_greeting<'a>(custom: Option<&'a str>) -> (greeting: StringOrRef<'a>)
    ensures
        match custom {
            Some(text) => greeting is Borrowed && greeting@ == text@,
            None => greeting is Owned && greeting@ == "Hello, World!"@,
        },
{
    match custom {
        Some(greeting) => StringOrRef::Borrowed(greeting),
        None => StringOrRef::Owned(to_string(&to_chars("Hello, World!"))),
    }
}

} // verus!
