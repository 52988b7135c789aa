use crate::address::{address_text, parse_address};
use crate::text::{parse_unsigned, unsigned_text};
use vstd::prelude::*;
use vstd::string::*;

verus! {

/// A way to read the text of a field as a value.
pub trait TextConvert {
    type Value;

    type Error;

    /// What the text is read as.
    spec fn reads(&self, text: Seq<char>) -> Result<Self::Value, Self::Error>;

    /// Reads the text.
    fn convert(&self, text: &str) -> (value: Result<Self::Value, Self::Error>)
        ensures
            value == self.reads(text@),
    ;
}

/// Why text is no number: nothing stands there, or something that is no
/// decimal number that fits.
#[derive(Debug, Clone, Copy, PartialEq, Eq, Structural)]
pub enum NumberError {
    Empty,
    Invalid,
}

/// Reads a count: a decimal number without sign.
#[derive(Debug, Clone, Copy)]
pub struct FromStrCount;

impl TextConvert for FromStrCount {
    type Value = usize;

    type Error = NumberError;

    open spec fn reads(&self, text: Seq<char>) -> Result<usize, NumberError> {
        if text.len() == 0 {
            Err(NumberError::Empty)
        } else {
            match unsigned_text(text, 10, usize::MAX as nat) {
                Some(n) => Ok(n as usize),
                None => Err(NumberError::Invalid),
            }
        }
    }

    fn convert(&self, text: &str) -> (value: Result<usize, NumberError>) {
        if text.is_empty() {
            return Err(NumberError::Empty);
        }
        match parse_unsigned(text, 10, usize::MAX as u64) {
            Some(n) => Ok(n as usize),
            None => Err(NumberError::Invalid),
        }
    }
}

/// Reads an address: a hexadecimal number.
#[derive(Debug, Clone, Copy)]
pub struct HexAddress;

impl TextConvert for HexAddress {
    type Value = usize;

    type Error = ();

    open spec fn reads(&self, text: Seq<char>) -> Result<usize, ()> {
        match address_text(text) {
            Some(a) => Ok(a as usize),
            None => Err(()),
        }
    }

    fn convert(&self, text: &str) -> (value: Result<usize, ()>) {
        match parse_address(text) {
            Some(a) => Ok(a),
            None => Err(()),
        }
    }
}

/// The text of an edit field together with the value that it was read as.
/// As long as nothing was typed there is no value, unless one was given when
/// the field was made.
pub struct TextEditBind<C: TextConvert> {
    buf: String,
    value: Option<Result<C::Value, C::Error>>,
    convert: C,
}

/// A field for a count.
pub type TextEditFromStrBind = TextEditBind<FromStrCount>;

impl<C: TextConvert> TextEditBind<C> {
    /// The text in the field.
    pub closed spec fn text(&self) -> Seq<char> {
        self.buf@
    }

    /// The value of the field.
    pub closed spec fn held(&self) -> Option<Result<C::Value, C::Error>> {
        self.value
    }

    /// How the text is read.
    pub closed spec fn reader(&self) -> C {
        self.convert
    }

    /// An empty field without a value.
    pub fn new(convert: C) -> (bind: Self)
        ensures
            bind.text() == Seq::<char>::empty(),
            bind.held() is None,
            bind.reader() == convert,
    {
        TextEditBind { buf: String::new(), value: None, convert }
    }

    /// The value of the field, if it has one: what the text was read as, or
    /// why it could not be read.
    pub fn value(&self) -> (value: Option<Result<&C::Value, &C::Error>>)
        ensures
            match value {
                Some(Ok(v)) => self.held() == Some(Ok::<C::Value, C::Error>(*v)),
                Some(Err(e)) => self.held() == Some(Err::<C::Value, C::Error>(*e)),
                None => self.held() is None,
            },
    {
        match &self.value {
            Some(Ok(v)) => Some(Ok(v)),
            Some(Err(e)) => Some(Err(e)),
            None => None,
        }
    }

    /// A field with this text and this value. The text is not read.
    pub fn new_with(buf: String, value: Option<C::Value>, convert: C) -> (bind: Self)
        ensures
            bind.text() == buf@,
            bind.held() == match value {
                Some(v) => Some(Ok::<C::Value, C::Error>(v)),
                None => None,
            },
            bind.reader() == convert,
    {
        TextEditBind {
            buf,
            value: match value {
                Some(v) => Some(Ok(v)),
                None => None,
            },
            convert,
        }
    }

    /// Reads the text anew.
    pub fn update(&mut self)
        ensures
            final(self).text() == old(self).text(),
            final(self).reader() == old(self).reader(),
            final(self).held() == Some(old(self).reader().reads(old(self).text())),
    {
        self.value = Some(self.convert.convert(self.buf.as_str()));
    }

    /// Gives the field this value and this text. The text is not read.
    pub fn set(&mut self, value: C::Value, text: String)
        ensures
            final(self).text() == text@,
            final(self).reader() == old(self).reader(),
            final(self).held() == Some(Ok::<C::Value, C::Error>(value)),
    {
        self.buf = text;
        self.value = Some(Ok(value));
    }

    /// The text in the field.
    pub fn as_str(&self) -> (text: &str)
        ensures
            text@ == self.text(),
    {
        self.buf.as_str()
    }

    /// Puts `text` into the field before the character at `char_index`,
    /// reads the text anew, and gives the number of characters put in.
    pub fn insert_text(&mut self, text: &str, char_index: usize) -> (count: usize)
        requires
            char_index <= old(self).text().len(),
        ensures
            final(self).text() == old(self).text().take(char_index as int) + text@ + old(self).text().skip(char_index as int),
            final(self).reader() == old(self).reader(),
            final(self).held() == Some(old(self).reader().reads(final(self).text())),
            count == text@.len(),
    {
        let len = self.buf.as_str().unicode_len();
        let mut joined = String::from_str(self.buf.as_str().substring_char(0, char_index));
        joined.append(text);
        joined.append(self.buf.as_str().substring_char(char_index, len));
        assert(old(self).text().subrange(0, char_index as int) == old(self).text().take(
            char_index as int,
        ));
        assert(old(self).text().subrange(char_index as int, len as int) == old(self).text().skip(
            char_index as int,
        ));
        self.buf = joined;
        self.update();
        text.unicode_len()
    }

    /// Takes the characters from `from` up to `to` out of the field and
    /// reads the text anew.
    pub fn delete_char_range(&mut self, from: usize, to: usize)
        requires
            from <= to <= old(self).text().len(),
        ensures
            final(self).text() == old(self).text().take(from as int) + old(self).text().skip(
                to as int,
            ),
            final(self).reader() == old(self).reader(),
            final(self).held() == Some(old(self).reader().reads(final(self).text())),
    {
        let len = self.buf.as_str().unicode_len();
        let mut joined = String::from_str(self.buf.as_str().substring_char(0, from));
        joined.append(self.buf.as_str().substring_char(to, len));
        assert(old(self).text().subrange(0, from as int) == old(self).text().take(from as int));
        assert(old(self).text().subrange(to as int, len as int) == old(self).text().skip(
            to as int,
        ));
        self.buf = joined;
        self.update();
    }
}

impl<C: TextConvert> TextEditBind<C> where C::Value: Copy, C::Error: Copy {
    /// A copy of the value of the field.
    pub fn value_clone(&self) -> (value: Option<Result<C::Value, C::Error>>)
        ensures
            value == self.held(),
    {
        match &self.value {
            Some(Ok(v)) => Some(Ok(*v)),
            Some(Err(e)) => Some(Err(*e)),
            None => None,
        }
    }
}

impl TextEditBind<FromStrCount> {
    /// An empty field for a count.
    pub fn new_from_str() -> (bind: Self)
        ensures
            bind.text() == Seq::<char>::empty(),
            bind.held() is None,
    {
        TextEditBind::new(FromStrCount)
    }

    /// A field for a count with this text and this value.
    pub fn new_from_str_with(buf: String, value: Option<usize>) -> (bind: Self)
        ensures
            bind.text() == buf@,
            bind.held() == match value {
                Some(v) => Some(Ok::<usize, NumberError>(v)),
                None => None,
            },
    {
        TextEditBind::new_with(buf, value, FromStrCount)
    }
}

} // verus!
