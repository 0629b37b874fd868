//! The controller of a creature: a two-layer perceptron whose weights are
//! unpacked from a flat genome.

use vstd::prelude::*;

verus! {

/// Number of genome entries for a network with the given layer sizes:
/// hidden weights and biases, then output weights and biases.
pub open spec fn genome_len_spec(input_size: int, hidden_size: int, output_size: int) -> int {
    hidden_size * input_size + hidden_size + output_size * hidden_size + output_size
}

/// The decimal digit for `d < 10`.
pub open spec fn decimal_digit(d: nat) -> char {
    if d == 0 {
        '0'
    } else if d == 1 {
        '1'
    } else if d == 2 {
        '2'
    } else if d == 3 {
        '3'
    } else if d == 4 {
        '4'
    } else if d == 5 {
        '5'
    } else if d == 6 {
        '6'
    } else if d == 7 {
        '7'
    } else if d == 8 {
        '8'
    } else {
        '9'
    }
}

/// Decimal notation of `n`, without leading zeros.
pub open spec fn decimal(n: nat) -> Seq<char>
    decreases n,
{
    if n < 10 {
        seq![decimal_digit(n)]
    } else {
        decimal(n / 10).push(decimal_digit(n % 10))
    }
}

/// The message of a genome whose length does not fit the topology.
pub open spec fn genome_mismatch_message(
    got: nat,
    expected: nat,
    input_size: nat,
    hidden_size: nat,
    output_size: nat,
) -> Seq<char> {
    "genome length "@ + decimal(got) + " does not match expected "@ + decimal(expected)
        + " for topology "@ + decimal(input_size) + "->"@ + decimal(hidden_size) + "->"@
        + decimal(output_size)
}

/// The decimal digit `d < 10` as a one-character string.
fn digit_str(d: usize) -> (s: &'static str)
    requires
        d < 10,
    ensures
        s@ == seq![decimal_digit(d as nat)],
{
    match d {
        0 => {
            proof {
                reveal_strlit("0");
            }
            "0"
        },
        1 => {
            proof {
                reveal_strlit("1");
            }
            "1"
        },
        2 => {
            proof {
                reveal_strlit("2");
            }
            "2"
        },
        3 => {
            proof {
                reveal_strlit("3");
            }
            "3"
        },
        4 => {
            proof {
                reveal_strlit("4");
            }
            "4"
        },
        5 => {
            proof {
                reveal_strlit("5");
            }
            "5"
        },
        6 => {
            proof {
                reveal_strlit("6");
            }
            "6"
        },
        7 => {
            proof {
                reveal_strlit("7");
            }
            "7"
        },
        8 => {
            proof {
                reveal_strlit("8");
            }
            "8"
        },
        _ => {
            proof {
                reveal_strlit("9");
            }
            "9"
        },
    }
}

/// Appends `n` in decimal to `text`.
fn push_decimal(text: &mut String, n: usize)
    ensures
        final(text)@ == old(text)@ + decimal(n as nat),
    decreases n,
{
    if n >= 10 {
        push_decimal(text, n / 10);
    }
    text.append(digit_str(n % 10));
    assert(final(text)@ =~= old(text)@ + decimal(n as nat));
}

/// Writes the message of a genome whose length does not fit the topology.
fn format_genome_mismatch(
    got: usize,
    expected: usize,
    input_size: usize,
    hidden_size: usize,
    output_size: usize,
) -> (message: String)
    ensures
        message@ == genome_mismatch_message(
            got as nat,
            expected as nat,
            input_size as nat,
            hidden_size as nat,
            output_size as nat,
        ),
{
    let mut message = String::from_str("genome length ");
    push_decimal(&mut message, got);
    message.append(" does not match expected ");
    push_decimal(&mut message, expected);
    message.append(" for topology ");
    push_decimal(&mut message, input_size);
    message.append("->");
    push_decimal(&mut message, hidden_size);
    message.append("->");
    push_decimal(&mut message, output_size);
    message
}

/// A fully connected network `input -> hidden (tanh) -> output (tanh)`.
/// `w1` holds `hidden_size` rows of `input_size` weights, `w2` holds
/// `output_size` rows of `hidden_size` weights.
pub struct NeuralNet<W> {
    input_size: usize,
    hidden_size: usize,
    output_size: usize,
    w1: Vec<W>,
    b1: Vec<W>,
    w2: Vec<W>,
    b2: Vec<W>,
}

impl<W: Copy> NeuralNet<W> {
    pub closed spec fn spec_input_size(&self) -> nat {
        self.input_size as nat
    }

    pub closed spec fn spec_hidden_size(&self) -> nat {
        self.hidden_size as nat
    }

    pub closed spec fn spec_output_size(&self) -> nat {
        self.output_size as nat
    }

    /// Hidden-layer weights, row `h` at `h * input_size .. (h + 1) * input_size`.
    pub closed spec fn spec_w1(&self) -> Seq<W> {
        self.w1@
    }

    /// Hidden-layer biases.
    pub closed spec fn spec_b1(&self) -> Seq<W> {
        self.b1@
    }

    /// Output-layer weights, row `o` at `o * hidden_size .. (o + 1) * hidden_size`.
    pub closed spec fn spec_w2(&self) -> Seq<W> {
        self.w2@
    }

    /// Output-layer biases.
    pub closed spec fn spec_b2(&self) -> Seq<W> {
        self.b2@
    }

    /// The layers have the sizes of the topology.
    pub closed spec fn well_formed(&self) -> bool {
        &&& self.w1@.len() == self.hidden_size * self.input_size
        &&& self.b1@.len() == self.hidden_size
        &&& self.w2@.len() == self.output_size * self.hidden_size
        &&& self.b2@.len() == self.output_size
    }

    /// Number of genome entries required for the given topology.
    pub fn genome_len(input_size: usize, hidden_size: usize, output_size: usize) -> (len: usize)
        requires
            genome_len_spec(input_size as int, hidden_size as int, output_size as int)
                <= usize::MAX,
        ensures
            len == genome_len_spec(input_size as int, hidden_size as int, output_size as int),
    {
        proof {
            lemma_genome_parts(input_size as int, hidden_size as int, output_size as int);
        }
        hidden_size * input_size + hidden_size + output_size * hidden_size + output_size
    }

    /// The genome length for the topology, or `None` when it does not fit in
    /// a `usize`; `genome_len` and `from_genome` may be called exactly when
    /// this is `Some`.
    pub fn checked_genome_len(input_size: usize, hidden_size: usize, output_size: usize) -> (len:
        Option<usize>)
        ensures
            len is Some <==> genome_len_spec(input_size as int, hidden_size as int, output_size as int)
                <= usize::MAX,
            len matches Some(n) ==> n == genome_len_spec(
                input_size as int,
                hidden_size as int,
                output_size as int,
            ),
    {
        proof {
            lemma_genome_parts(input_size as int, hidden_size as int, output_size as int);
        }
        let hi: usize = match hidden_size.checked_mul(input_size) {
            Some(v) => v,
            None => return None,
        };
        let oh: usize = match output_size.checked_mul(hidden_size) {
            Some(v) => v,
            None => return None,
        };
        let s1: usize = match hi.checked_add(hidden_size) {
            Some(v) => v,
            None => return None,
        };
        let s2: usize = match s1.checked_add(oh) {
            Some(v) => v,
            None => return None,
        };
        s2.checked_add(output_size)
    }

    /// Unpacks a genome into weight matrices: the genome is read in the
    /// order hidden weights, hidden biases, output weights, output biases.
    /// A genome of any other length than `genome_len` is refused with a
    /// message naming both lengths and the topology.
    pub fn from_genome(genome: &[W], input_size: usize, hidden_size: usize, output_size: usize) -> (r:
        Result<NeuralNet<W>, String>)
        requires
            genome_len_spec(input_size as int, hidden_size as int, output_size as int)
                <= usize::MAX,
        ensures
            r is Ok <==> genome@.len() == genome_len_spec(
                input_size as int,
                hidden_size as int,
                output_size as int,
            ),
            r matches Ok(net) ==> {
                let hi: int = hidden_size * input_size;
                let oh: int = output_size * hidden_size;
                &&& net.well_formed()
                &&& net.spec_input_size() == input_size
                &&& net.spec_hidden_size() == hidden_size
                &&& net.spec_output_size() == output_size
                &&& net.spec_w1() == genome@.subrange(0, hi)
                &&& net.spec_b1() == genome@.subrange(hi, hi + hidden_size)
                &&& net.spec_w2() == genome@.subrange(hi + hidden_size, hi + hidden_size + oh)
                &&& net.spec_b2() == genome@.subrange(
                    hi + hidden_size + oh,
                    genome@.len() as int,
                )
                &&& net.spec_w1() + net.spec_b1() + net.spec_w2() + net.spec_b2() == genome@
            },
            r matches Err(message) ==> message@ == genome_mismatch_message(
                genome@.len(),
                genome_len_spec(input_size as int, hidden_size as int, output_size as int) as nat,
                input_size as nat,
                hidden_size as nat,
                output_size as nat,
            ),
    {
        let expected: usize = Self::genome_len(input_size, hidden_size, output_size);
        if genome.len() != expected {
            return Err(
                format_genome_mismatch(
                    genome.len(),
                    expected,
                    input_size,
                    hidden_size,
                    output_size,
                ),
            );
        }
        proof {
            lemma_genome_parts(input_size as int, hidden_size as int, output_size as int);
        }
        let hi: usize = hidden_size * input_size;
        let oh: usize = output_size * hidden_size;
        let w1 = copy_range(genome, 0, hi);
        let b1 = copy_range(genome, hi, hi + hidden_size);
        let w2 = copy_range(genome, hi + hidden_size, hi + hidden_size + oh);
        let b2 = copy_range(genome, hi + hidden_size + oh, expected);
        assert(w1@ + b1@ + w2@ + b2@ =~= genome@);
        Ok(NeuralNet { input_size, hidden_size, output_size, w1, b1, w2, b2 })
    }

    pub fn input_size(&self) -> (n: usize)
        ensures
            n == self.spec_input_size(),
    {
        self.input_size
    }

    pub fn hidden_size(&self) -> (n: usize)
        ensures
            n == self.spec_hidden_size(),
    {
        self.hidden_size
    }

    pub fn output_size(&self) -> (n: usize)
        ensures
            n == self.spec_output_size(),
    {
        self.output_size
    }

    /// Hidden-layer weights, one row of `input_size` per hidden unit.
    pub fn w1(&self) -> (w: &Vec<W>)
        ensures
            w@ == self.spec_w1(),
    {
        &self.w1
    }

    /// Hidden-layer biases.
    pub fn b1(&self) -> (b: &Vec<W>)
        ensures
            b@ == self.spec_b1(),
    {
        &self.b1
    }

    /// Output-layer weights, one row of `hidden_size` per output.
    pub fn w2(&self) -> (w: &Vec<W>)
        ensures
            w@ == self.spec_w2(),
    {
        &self.w2
    }

    /// Output-layer biases.
    pub fn b2(&self) -> (b: &Vec<W>)
        ensures
            b@ == self.spec_b2(),
    {
        &self.b2
    }
}

proof fn lemma_genome_parts(input_size: int, hidden_size: int, output_size: int)
    requires
        0 <= input_size,
        0 <= hidden_size,
        0 <= output_size,
    ensures
        0 <= hidden_size * input_size,
        0 <= output_size * hidden_size,
        hidden_size * input_size <= genome_len_spec(input_size, hidden_size, output_size),
        output_size * hidden_size <= genome_len_spec(input_size, hidden_size, output_size),
{
    assert(0 <= hidden_size * input_size) by (nonlinear_arith)
        requires
            0 <= input_size,
            0 <= hidden_size,
    ;
    assert(0 <= output_size * hidden_size) by (nonlinear_arith)
        requires
            0 <= output_size,
            0 <= hidden_size,
    ;
}

fn copy_range<W: Copy>(source: &[W], start: usize, end: usize) -> (out: Vec<W>)
    requires
        start <= end <= source@.len(),
    ensures
        out@ == source@.subrange(start as int, end as int),
{
    let mut out: Vec<W> = Vec::with_capacity(end - start);
    let mut k: usize = start;
    while k < end
        invariant
            start <= k <= end,
            end <= source@.len(),
            out@ == source@.subrange(start as int, k as int),
        decreases end - k,
    {
        out.push(source[k]);
        assert(source@.subrange(start as int, k + 1) =~= source@.subrange(start as int, k as int).push(source@[k as int]));
        k = k + 1;
    }
    out
}

} // verus!
