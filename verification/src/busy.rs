//! Classification of transient SQLite lock conflicts.
use vstd::prelude::*;
use vstd::string::*;

verus! {

/// Primary result code of SQLite's `SQLITE_BUSY` family.
pub const SQLITE_BUSY: i32 = 5;

/// The decimal digit that a character stands for.
pub open spec fn is_digit(c: char) -> bool {
    '0' <= c <= '9'
}

/// The number that a sequence of decimal digits stands for.
pub open spec fn digits_value(digits: Seq<char>) -> nat
    decreases digits.len(),
{
    if digits.len() == 0 {
        0
    } else {
        digits_value(digits.drop_last()) * 10 + (digits.last() as nat - '0' as nat) as nat
    }
}

/// The digits of a decimal number: all of it but a leading sign.
pub open spec fn without_sign(text: Seq<char>) -> Seq<char> {
    if text.len() > 0 && (text[0] == '+' || text[0] == '-') {
        text.subrange(1, text.len() as int)
    } else {
        text
    }
}

/// The number that a decimal text stands for: an optional sign and then one or
/// more digits, and nothing else.
pub open spec fn decimal(text: Seq<char>) -> Option<int> {
    let digits = without_sign(text);
    if digits.len() > 0 && forall|i: int| 0 <= i < digits.len() ==> is_digit(#[trigger] digits[i]) {
        if text[0] == '-' {
            Some(-(digits_value(digits) as int))
        } else {
            Some(digits_value(digits) as int)
        }
    } else {
        None
    }
}

/// The 32-bit result code that a decimal text stands for.
pub open spec fn result_code(text: Seq<char>) -> Option<int> {
    match decimal(text) {
        Some(value) if i32::MIN <= value <= i32::MAX => Some(value),
        _ => None,
    }
}

/// Whether a reported result code belongs to the `SQLITE_BUSY` family: its low
/// byte, the primary code, is 5.
pub open spec fn is_busy_code(code: Option<Seq<char>>) -> bool {
    match code {
        Some(text) => match result_code(text) {
            Some(value) => value % 256 == 5,
            None => false,
        },
        None => false,
    }
}

/// Further digits never make a number smaller.
proof fn lemma_prefix_value(digits: Seq<char>, len: int)
    requires
        0 <= len <= digits.len(),
    ensures
        digits_value(digits.take(len)) <= digits_value(digits),
    decreases digits.len(),
{
    if len < digits.len() {
        lemma_prefix_value(digits.drop_last(), len);
        assert(digits.drop_last().take(len) =~= digits.take(len));
    } else {
        assert(digits.take(len) =~= digits);
    }
}

/// Reads a decimal 32-bit result code.
pub fn parse_result_code(text: &str) -> (code: Option<i32>)
    ensures
        match code {
            Some(value) => result_code(text@) == Some(value as int),
            None => result_code(text@) is None,
        },
{
    let len: usize = text.unicode_len();
    if len == 0 {
        return None;
    }
    let first: char = text.get_char(0);
    let negative: bool = first == '-';
    let start: usize = if first == '+' || negative {
        1
    } else {
        0
    };
    if start == len {
        return None;
    }
    let ghost digits = without_sign(text@);
    let mut magnitude: i64 = 0;
    let mut index: usize = start;
    while index < len
        invariant
            start <= index <= len,
            start <= 1,
            len == text@.len(),
            digits == without_sign(text@),
            digits == text@.subrange(start as int, len as int),
            forall|i: int| 0 <= i < index - start ==> is_digit(#[trigger] digits[i]),
            0 <= magnitude <= 0x8000_0000,
            magnitude == digits_value(digits.take(index - start)),
        decreases len - index,
    {
        let c: char = text.get_char(index);
        assert(c == digits[index - start]);
        if c < '0' || c > '9' {
            return None;
        }
        assert(digits.take(index + 1 - start).drop_last() =~= digits.take(index - start));
        magnitude = magnitude * 10 + (c as u32 - '0' as u32) as i64;
        proof {
            lemma_prefix_value(digits, index + 1 - start);
        }
        if magnitude > 0x8000_0000 {
            return None;
        }
        index = index + 1;
    }
    assert(digits.take(len - start) =~= digits);
    let value: i64 = if negative {
        -magnitude
    } else {
        magnitude
    };
    if value > 0x7fff_ffff {
        None
    } else {
        Some(value as i32)
    }
}

/// The low byte of a 32-bit code is its remainder modulo 256.
proof fn lemma_low_byte(code: i32)
    ensures
        (code & 0xff) as int == code as int % 256,
{
    let bits = code as u32;
    assert((code & 0xff) as u32 == bits & 0xff && 0 <= (code & 0xff)) by (bit_vector)
        requires
            bits == code as u32,
    ;
    assert(bits & 0xff == bits % 256) by (bit_vector);
    assert(code >= 0 ==> bits == code) by (bit_vector)
        requires
            bits == code as u32,
    ;
    assert(code < 0 ==> bits == code + 0x1_0000_0000) by (bit_vector)
        requires
            bits == code as u32,
    ;
}

/// Whether a reported extended result code is in SQLite's `SQLITE_BUSY`
/// family.
///
/// The code is reported as a decimal text, and its low byte is the primary
/// code. `5` is `SQLITE_BUSY`, and every extended code built on it (recovery
/// `261`, snapshot `517`, timeout `773`) is the same lock conflict.
pub fn is_busy_extended_code(code: Option<&str>) -> (busy: bool)
    ensures
        busy == is_busy_code(
            match code {
                Some(text) => Some(text@),
                None => None,
            },
        ),
        busy <==> (code matches Some(text) && result_code(text@) matches Some(value) && value % 256
            == 5),
{
    match code {
        Some(text) => match parse_result_code(text) {
            Some(extended_code) => {
                proof {
                    lemma_low_byte(extended_code);
                }
                extended_code & 0xff == SQLITE_BUSY
            },
            None => false,
        },
        None => false,
    }
}

/// A failure reported by the event store's persistence layer.
pub enum PersistenceError {
    /// Another writer took the sequence number first.
    OptimisticLockError,
    /// The store could not be reached. Carries what went wrong.
    ConnectionError(Box<ErrorNode>),
    /// A stored payload could not be read back.
    DeserializationError(Box<ErrorNode>),
    /// Any other failure. Carries what went wrong.
    UnknownError(Box<ErrorNode>),
}

/// What is known of the concrete type of one error in a chain.
pub enum ErrorKind {
    /// A database driver error that the database itself reported, with the
    /// result code it came with.
    SqlxDatabase(Option<String>),
    /// A boxed database error on its own, with the result code it came with.
    /// This is what a transparent wrapper around a driver error gives as its
    /// source.
    BoxedDatabase(Option<String>),
    /// A failure of the persistence layer. The error inside it is not its
    /// source.
    Persistence(PersistenceError),
    /// An error of any other type, which gives away nothing but its source.
    Opaque,
}

/// One error with everything that can be reached from it.
pub struct ErrorNode {
    /// What the error is.
    pub kind: ErrorKind,
    /// The lower-level error that it names as its source, if any.
    pub source: Option<Box<ErrorNode>>,
}

impl ErrorNode {
    /// Whether this error by itself reports a lock conflict.
    pub open spec fn reports_busy(self) -> bool {
        match self.kind {
            ErrorKind::SqlxDatabase(code) | ErrorKind::BoxedDatabase(code) => is_busy_code(
                match code {
                    Some(text) => Some(text@),
                    None => None,
                },
            ),
            _ => false,
        }
    }

    /// The next error down: what a persistence failure carries where it is
    /// known to, and the source otherwise.
    pub open spec fn below(self) -> Option<ErrorNode> {
        match self.kind {
            ErrorKind::Persistence(PersistenceError::ConnectionError(inner)) => Some(*inner),
            ErrorKind::Persistence(PersistenceError::UnknownError(inner)) => Some(*inner),
            _ => match self.source {
                Some(source) => Some(*source),
                None => None,
            },
        }
    }

    /// This error and every error below it, outermost first.
    pub open spec fn chain(self) -> Seq<ErrorNode>
        decreases self,
    {
        match self.kind {
            ErrorKind::Persistence(PersistenceError::ConnectionError(inner)) => seq![self]
                + inner.chain(),
            ErrorKind::Persistence(PersistenceError::UnknownError(inner)) => seq![self]
                + inner.chain(),
            _ => match self.source {
                Some(source) => seq![self] + source.chain(),
                None => seq![self],
            },
        }
    }

    /// Whether some error in the chain reports a lock conflict.
    pub open spec fn chain_reports_busy(self) -> bool {
        exists|i: int| 0 <= i < self.chain().len() && (#[trigger] self.chain()[i]).reports_busy()
    }
}

/// A chain reports a lock conflict when its first error does, or the chain
/// below it does.
proof fn lemma_chain_step(error: ErrorNode)
    ensures
        error.chain_reports_busy() == (error.reports_busy() || match error.below() {
            Some(next) => next.chain_reports_busy(),
            None => false,
        }),
{
    let chain = error.chain();
    assert(chain[0] == error);
    match error.below() {
        Some(next) => {
            assert(chain =~= seq![error] + next.chain());
            if error.chain_reports_busy() && !error.reports_busy() {
                let i = choose|i: int| 0 <= i < chain.len() && (#[trigger] chain[i]).reports_busy();
                assert(next.chain()[i - 1] == chain[i]);
            }
            if next.chain_reports_busy() {
                let i = choose|i: int|
                    0 <= i < next.chain().len() && (#[trigger] next.chain()[i]).reports_busy();
                assert(chain[i + 1] == next.chain()[i]);
            }
        },
        None => {
            assert(chain =~= seq![error]);
        },
    }
}

/// Classifies whether an error chain contains a transient SQLite lock conflict.
///
/// Walks from the error down through its sources and looks at the result code
/// of each database error on the way. What a persistence connection or unknown
/// failure carries is not its source, so the walk steps into it explicitly. An
/// error sealed inside any other type is not reached, and the answer is then
/// `false`.
pub fn is_retryable_sqlite_busy(error: &ErrorNode) -> (busy: bool)
    ensures
        busy == error.chain_reports_busy(),
{
    let mut current: &ErrorNode = error;
    loop
        invariant
            error.chain_reports_busy() == current.chain_reports_busy(),
        decreases *current,
    {
        proof {
            lemma_chain_step(*current);
        }
        let busy: bool = match &current.kind {
            ErrorKind::SqlxDatabase(Some(code)) => is_busy_extended_code(Some(code.as_str())),
            ErrorKind::BoxedDatabase(Some(code)) => is_busy_extended_code(Some(code.as_str())),
            _ => false,
        };
        if busy {
            return true;
        }
        match &current.kind {
            ErrorKind::Persistence(PersistenceError::ConnectionError(inner)) => {
                current = &**inner;
            },
            ErrorKind::Persistence(PersistenceError::UnknownError(inner)) => {
                current = &**inner;
            },
            _ => match &current.source {
                Some(source) => {
                    current = &**source;
                },
                None => {
                    return false;
                },
            },
        }
    }
}

/// Digits are read in base ten, from the left: no digits are worth nothing, and
/// one more digit is worth itself on top of ten times what stands before it.
pub proof fn law_digits_are_read_in_base_ten(digits: Seq<char>, c: char)
    ensures
        digits_value(Seq::empty()) == 0,
        '0' <= c <= '9' ==> digits_value(digits.push(c)) == 10 * digits_value(digits) + (c as int
            - '0' as int),
{
    assert(digits.push(c).drop_last() =~= digits);
}

/// One or more digits are a result code if it fits in 32 bits, and so are they
/// behind a plus sign; behind a minus sign they are the negative of it.
pub proof fn law_signed_digits_are_a_result_code(digits: Seq<char>)
    requires
        digits.len() > 0,
        forall|i: int| 0 <= i < digits.len() ==> '0' <= #[trigger] digits[i] <= '9',
    ensures
        digits_value(digits) <= 0x7fff_ffff ==> result_code(digits) == Some(
            digits_value(digits) as int,
        ) && result_code(seq!['+'] + digits) == Some(digits_value(digits) as int),
        digits_value(digits) > 0x7fff_ffff ==> result_code(digits) is None && result_code(
            seq!['+'] + digits,
        ) is None,
        digits_value(digits) <= 0x8000_0000 ==> result_code(seq!['-'] + digits) == Some(
            -digits_value(digits),
        ),
        digits_value(digits) > 0x8000_0000 ==> result_code(seq!['-'] + digits) is None,
{
    let (plus, minus) = (seq!['+'] + digits, seq!['-'] + digits);
    assert(digits[0] <= '9' && '0' <= digits[0]);
    assert(without_sign(digits) == digits);
    assert(without_sign(plus) =~= digits);
    assert(without_sign(minus) =~= digits);
}

/// Nothing else is a result code: there has to be a digit, and what is not a
/// digit can only be one sign in front.
pub proof fn law_result_codes_are_signed_digits(text: Seq<char>, at: int)
    requires
        result_code(text) is Some,
        0 <= at < text.len(),
    ensures
        '0' <= text.last() <= '9',
        '0' <= text[at] <= '9' || at == 0 && (text[0] == '+' || text[0] == '-'),
{
    let digits = without_sign(text);
    assert(is_digit(digits[digits.len() - 1]));
    assert(text.last() == digits.last());
    if digits.len() == text.len() {
        assert(is_digit(digits[at]));
    } else if at > 0 {
        assert(is_digit(digits[at - 1]));
        assert(digits[at - 1] == text[at]);
    }
}

/// The empty text, like no text at all, is no result code.
pub proof fn law_empty_text_is_no_result_code()
    ensures
        result_code(Seq::empty()) is None,
        !is_busy_code(None),
{
}

/// A code belongs to the busy family exactly when it is a 32-bit number with a
/// low byte of 5.
pub proof fn law_low_byte_makes_a_code_busy(text: Seq<char>)
    ensures
        is_busy_code(Some(text)) <==> (result_code(text) matches Some(value) && value % 256 == 5),
        result_code(text) matches Some(value) ==> -0x8000_0000 <= value <= 0x7fff_ffff,
{
}

/// Of the numbers that fit, written out in decimal, those of the form
/// 256 k + 5 are busy codes, and no others.
pub proof fn law_written_code_is_busy_by_its_low_byte(number: nat)
    requires
        number <= 0x7fff_ffff,
    ensures
        result_code(crate::queries::decimal_text(number)) == Some(number as int),
        is_busy_code(Some(crate::queries::decimal_text(number))) <==> number % 256 == 5,
{
    let digits = crate::queries::decimal_text(number);
    crate::queries::law_decimal_text_reads_back(number);
    assert forall|i: int| 0 <= i < digits.len() implies '0' <= #[trigger] digits[i] <= '9' by {
        assert(is_digit(digits[i]));
    }
    law_signed_digits_are_a_result_code(digits);
}

/// Two readings of one text agree, and give the number that it stands for.
pub proof fn law_reading_a_code_gives_its_number(text: &str, code: Option<i32>, busy: bool)
    requires
        call_ensures(parse_result_code, (text,), code),
        call_ensures(is_busy_extended_code, (Some(text),), busy),
    ensures
        code matches Some(value) ==> result_code(text@) == Some(value as int),
        code is None ==> result_code(text@) is None,
        busy <==> (code matches Some(value) && value as int % 256 == 5),
{
}

/// A chain of errors starts with the error itself, and goes on with the chain of
/// what a connection or unknown failure of the persistence layer carries, and
/// with that of the source otherwise. It ends where there is no source.
pub proof fn law_chain_follows_what_errors_carry(error: ErrorNode)
    ensures
        error.chain().len() > 0,
        error.chain()[0] == error,
        match error.kind {
            ErrorKind::Persistence(PersistenceError::ConnectionError(inner)) => error.chain()
                == seq![error] + inner.chain(),
            ErrorKind::Persistence(PersistenceError::UnknownError(inner)) => error.chain()
                == seq![error] + inner.chain(),
            _ => match error.source {
                Some(source) => error.chain() == seq![error] + source.chain(),
                None => error.chain() == seq![error],
            },
        },
        match error.kind {
            ErrorKind::Persistence(PersistenceError::ConnectionError(inner)) => error.below()
                == Some(*inner),
            ErrorKind::Persistence(PersistenceError::UnknownError(inner)) => error.below() == Some(
                *inner,
            ),
            _ => match error.source {
                Some(source) => error.below() == Some(*source),
                None => error.below() is None,
            },
        },
{
}

/// A database error is a lock conflict by its result code alone, whether it is a
/// driver error or a boxed one on its own, and whatever its source. Errors of
/// other kinds, and database errors without a code, are none themselves.
pub proof fn law_database_error_is_busy_by_its_code(error: ErrorNode)
    ensures
        match error.kind {
            ErrorKind::SqlxDatabase(Some(text)) => error.reports_busy() <==> (result_code(text@)
                matches Some(value) && value % 256 == 5),
            ErrorKind::BoxedDatabase(Some(text)) => error.reports_busy() <==> (result_code(text@)
                matches Some(value) && value % 256 == 5),
            _ => !error.reports_busy(),
        },
{
}

/// A chain with one or more lock conflicts anywhere in it, in a driver error or
/// in a boxed database error, is retried, whatever else is in it.
pub proof fn law_busy_code_anywhere_is_retried(
    error: &ErrorNode,
    at: int,
    text: String,
    value: int,
    busy: bool,
)
    requires
        0 <= at < error.chain().len(),
        error.chain()[at].kind == ErrorKind::SqlxDatabase(Some(text)) || error.chain()[at].kind
            == ErrorKind::BoxedDatabase(Some(text)),
        result_code(text@) == Some(value),
        value % 256 == 5,
        call_ensures(is_retryable_sqlite_busy, (error,), busy),
    ensures
        busy,
{
    assert(error.chain()[at].reports_busy());
}

/// A chain is retried only if there is a database error in it with a busy code.
/// Gives its place.
pub proof fn law_retried_chain_has_a_busy_code(error: &ErrorNode, busy: bool) -> (at: int)
    requires
        call_ensures(is_retryable_sqlite_busy, (error,), busy),
        busy,
    ensures
        0 <= at < error.chain().len(),
        match error.chain()[at].kind {
            ErrorKind::SqlxDatabase(Some(text)) => result_code(text@) matches Some(value) && value
                % 256 == 5,
            ErrorKind::BoxedDatabase(Some(text)) => result_code(text@) matches Some(value) && value
                % 256 == 5,
            _ => false,
        },
{
    choose|i: int| 0 <= i < error.chain().len() && (#[trigger] error.chain()[i]).reports_busy()
}

/// A driver error and a boxed database error with the same code and the same
/// source get the same verdict.
pub proof fn law_boxing_a_database_error_keeps_the_verdict(
    driver: &ErrorNode,
    boxed: &ErrorNode,
    code: Option<String>,
    driver_busy: bool,
    boxed_busy: bool,
)
    requires
        driver.kind == ErrorKind::SqlxDatabase(code),
        boxed.kind == ErrorKind::BoxedDatabase(code),
        driver.source == boxed.source,
        call_ensures(is_retryable_sqlite_busy, (driver,), driver_busy),
        call_ensures(is_retryable_sqlite_busy, (boxed,), boxed_busy),
    ensures
        driver_busy == boxed_busy,
{
    lemma_chain_step(*driver);
    lemma_chain_step(*boxed);
}

/// The verdict on an error is made of its own code, if it is a database error
/// with one, and of the verdict on the error below it: what a connection or
/// unknown failure of the persistence layer carries, and the source otherwise.
pub proof fn law_verdict_is_the_codes_or_the_one_below(
    error: &ErrorNode,
    next: &ErrorNode,
    busy: bool,
    next_busy: bool,
)
    requires
        match error.kind {
            ErrorKind::Persistence(PersistenceError::ConnectionError(inner)) => *inner == *next,
            ErrorKind::Persistence(PersistenceError::UnknownError(inner)) => *inner == *next,
            _ => error.source matches Some(source) && *source == *next,
        },
        call_ensures(is_retryable_sqlite_busy, (error,), busy),
        call_ensures(is_retryable_sqlite_busy, (next,), next_busy),
    ensures
        busy <==> next_busy || match error.kind {
            ErrorKind::SqlxDatabase(Some(text)) => result_code(text@) matches Some(value) && value
                % 256 == 5,
            ErrorKind::BoxedDatabase(Some(text)) => result_code(text@) matches Some(value) && value
                % 256 == 5,
            _ => false,
        },
{
    lemma_chain_step(*error);
}

/// The verdict on an error with nothing below it is that of its code alone.
pub proof fn law_verdict_at_the_end_is_the_codes(error: &ErrorNode, busy: bool)
    requires
        error.source is None,
        error.kind matches ErrorKind::Persistence(failure) ==> failure is OptimisticLockError
            || failure is DeserializationError,
        call_ensures(is_retryable_sqlite_busy, (error,), busy),
    ensures
        busy <==> match error.kind {
            ErrorKind::SqlxDatabase(Some(text)) => result_code(text@) matches Some(value) && value
                % 256 == 5,
            ErrorKind::BoxedDatabase(Some(text)) => result_code(text@) matches Some(value) && value
                % 256 == 5,
            _ => false,
        },
{
    lemma_chain_step(*error);
}

/// An error that says nothing about itself is as busy as the source it names,
/// however many such errors are stacked on top of each other.
pub proof fn law_opaque_wrapper_keeps_the_verdict(wrapper: ErrorNode)
    requires
        wrapper.kind is Opaque,
    ensures
        wrapper.chain_reports_busy() == match wrapper.source {
            Some(source) => source.chain_reports_busy(),
            None => false,
        },
{
    lemma_chain_step(wrapper);
}

/// A connection or unknown failure of the persistence layer is as busy as what
/// it carries, whatever it names as its source.
pub proof fn law_persistence_failure_keeps_the_verdict(failure: ErrorNode, inner: Box<ErrorNode>)
    requires
        failure.kind == ErrorKind::Persistence(PersistenceError::ConnectionError(inner))
            || failure.kind == ErrorKind::Persistence(PersistenceError::UnknownError(inner)),
    ensures
        failure.chain_reports_busy() == inner.chain_reports_busy(),
{
    lemma_chain_step(failure);
}

/// A lost race for a sequence number, or a payload that cannot be read back,
/// is not a lock conflict unless its source is one.
pub proof fn law_other_persistence_failures_follow_the_source(failure: ErrorNode)
    requires
        failure.kind matches ErrorKind::Persistence(error) && (
        error is OptimisticLockError || error is DeserializationError),
    ensures
        failure.chain_reports_busy() == match failure.source {
            Some(source) => source.chain_reports_busy(),
            None => false,
        },
{
    lemma_chain_step(failure);
}

} // verus!
