//! First steps: the longest word of a sentence, and an inventory.

use vstd::prelude::*;
use vstd::string::StringSliceAdditionalSpecFns;
use crate::text::{decimal_of, push_decimal, push_str, to_chars, to_string, texts, words, words_of};
use crate::text_map::TextMap;

verus! {

/// The number of bytes that `s` takes in UTF-8, as the length of a string
/// tells it.
pub open spec fn byte_len(s: Seq<char>) -> usize {
    vstd::utf8::encode_utf8(s).len() as usize
}

/// The longest of `words`, by bytes; of several that are longest, the last.
pub open spec fn longest_of(words: Seq<Seq<char>>) -> Option<Seq<char>>
    decreases words.len(),
{
    if words.len() == 0 {
        None
    } else {
        match longest_of(words.drop_last()) {
            None => Some(words.last()),
            Some(best) => if byte_len(words.last()) >= byte_len(best) {
                Some(words.last())
            } else {
                Some(best)
            },
        }
    }
}

/// The longest word of `sentence`, where it has a word.
pub fn find_longest_word(sentence: &str) -> (r: Option<String>)
    ensures
        match r {
            Some(word) => longest_of(words_of(sentence@)) == Some(word@),
            None => longest_of(words_of(sentence@)) is None,
        },
{
    let all: Vec<Vec<char>> = words(&to_chars(sentence));
    let mut best: Option<String> = None;
    let mut i: usize = 0;
    assert(texts(all@).take(0) =~= Seq::<Seq<char>>::empty());
    while i < all.len()
        invariant
            i <= all.len(),
            match best {
                Some(word) => longest_of(texts(all@).take(i as int)) == Some(word@),
                None => longest_of(texts(all@).take(i as int)) is None,
            },
        decreases all.len() - i,
    {
        proof {
            assert(texts(all@).take(i + 1).drop_last() =~= texts(all@).take(i as int));
            assert(texts(all@).take(i + 1).last() == all@[i as int]@);
        }
        let word: String = to_string(&all[i]);
        let longer: bool = match &best {
            Some(known) => {
                let candidate: &str = word.as_str();
                let leader: &str = known.as_str();
                assert(candidate.spec_bytes() == vstd::utf8::encode_utf8(word@));
                assert(leader.spec_bytes() == vstd::utf8::encode_utf8(known@));
                candidate.len() >= leader.len()
            },
            None => true,
        };
        if longer {
            best = Some(word);
        }
        i = i + 1;
    }
    assert(texts(all@).take(all@.len() as int) =~= texts(all@));
    best
}

/// The message for a removal that asks for more than there is.
pub open spec fn shortage_message(stock: u32, quantity: u32) -> Seq<char> {
    "Not enough items. Only "@ + decimal_of(stock as nat) + " available, but "@ + decimal_of(
        quantity as nat,
    ) + " requested"@
}

/// The message for an item that the inventory does not hold.
pub open spec fn unknown_item_message(name: Seq<char>) -> Seq<char> {
    "Item '"@ + name + "' not found in inventory"@
}

/// How many there are of each item.
pub struct Inventory {
    items: TextMap<u32>,
}

impl View for Inventory {
    type V = Map<Seq<char>, u32>;

    closed spec fn view(&self) -> Map<Seq<char>, u32> {
        self.items@
    }
}

impl Inventory {
    /// An inventory without items.
    pub fn new() -> (inventory: Self)
        ensures
            inventory@ == Map::<Seq<char>, u32>::empty(),
    {
        Inventory { items: TextMap::new() }
    }

    /// Adds `quantity` to the stock of `name`, which starts at zero.
    pub fn add_item(&mut self, name: String, quantity: u32)
        requires
            old(self)@.contains_key(name@) ==> old(self)@[name@] + quantity <= u32::MAX,
        ensures
            final(self)@ == old(self)@.insert(
                name@,
                if old(self)@.contains_key(name@) {
                    (old(self)@[name@] + quantity) as u32
                } else {
                    quantity
                },
            ),
    {
        let stock: u32 = match self.items.get(name.as_str()) {
            Some(stock) => *stock,
            None => 0,
        };
        self.items.insert(name, stock + quantity);
    }

    /// Takes `quantity` from the stock of `name`; an item whose stock falls
    /// to zero leaves the inventory. Fails, and changes nothing, where the
    /// inventory holds no such item or fewer of it.
    pub fn remove_item(&mut self, name: &str, quantity: u32) -> (r: Result<(), String>)
        ensures
            if !old(self)@.contains_key(name@) {
                &&& r matches Err(e) && e@ == unknown_item_message(name@)
                &&& final(self)@ == old(self)@
            } else if old(self)@[name@] < quantity {
                &&& r matches Err(e) && e@ == shortage_message(old(self)@[name@], quantity)
                &&& final(self)@ == old(self)@
            } else if old(self)@[name@] == quantity {
                &&& r is Ok
                &&& final(self)@ == old(self)@.remove(name@)
            } else {
                &&& r is Ok
                &&& final(self)@ == old(self)@.insert(
                    name@,
                    (old(self)@[name@] - quantity) as u32,
                )
            },
    {
        let stock: u32 = match self.items.get(name) {
            Some(stock) => *stock,
            None => {
                let mut out: Vec<char> = Vec::new();
                push_str(&mut out, "Item '");
                push_str(&mut out, name);
                push_str(&mut out, "' not found in inventory");
                assert(out@ =~= unknown_item_message(name@));
                return Err(to_string(&out));
            },
        };
        if stock < quantity {
            let mut out: Vec<char> = Vec::new();
            push_str(&mut out, "Not enough items. Only ");
            push_decimal(&mut out, stock as u64);
            push_str(&mut out, " available, but ");
            push_decimal(&mut out, quantity as u64);
            push_str(&mut out, " requested");
            assert(out@ =~= shortage_message(stock, quantity));
            return Err(to_string(&out));
        }
        if stock == quantity {
            self.items.remove(name);
        } else {
            self.items.insert(to_string(&to_chars(name)), stock - quantity);
        }
        Ok(())
    }

    /// The stock of `name`.
    pub fn check_stock(&self, name: &str) -> (r: Option<u32>)
        ensures
            r == if self@.contains_key(name@) {
                Some(self@[name@])
            } else {
                None
            },
    {
        match self.items.get(name) {
            Some(stock) => Some(*stock),
            None => None,
        }
    }
}

} // verus!
