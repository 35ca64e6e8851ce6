# tiny-infer

A small inference engine for two transformer architectures, with its logic verified by
[Verus](https://github.com/verus-lang/verus):

- **Llama-family decoders** in the llama2.c checkpoint formats (legacy, v1, and int8 v2);
- **encoder-decoder models** of the Marian family, with a SentencePiece unigram tokenizer.

The library reads checkpoints, tokenizes, runs the networks in full precision or with int8
weights, samples tokens, converts between formats, and writes the reports of the command
line. The functions in `src/` carry contracts that say what they return; the one exception
draws a seed at random, of which nothing can be said.

## Layout

| Path | Contents |
|------|----------|
| `src/arena.rs`, `src/layout.rs` | bump allocator; how tensors lie one behind the other |
| `src/bytes.rs`, `src/text.rs` | little-endian words; decimal numbers, padding, parsing |
| `src/scalar.rs`, `src/order.rs` | single-precision values as bit patterns, and their order |
| `src/kernels.rs`, `src/math.rs`, `src/q8.rs`, `src/quant.rs` | float and int8 kernels, quantization |
| `src/nn.rs`, `src/dsp.rs` | convolution, pooling and dense layers; spectra |
| `src/sample.rs` | greedy, full and nucleus sampling |
| `src/llama/` | the decoder-only architecture |
| `src/seq2seq/` | the encoder-decoder architecture |
| `src/host/` | command-line arguments and errors |
| `app/` | the `tiny-infer` program: files, terminal, clock |
| `tests/` | tests on concrete values |

Files whose names end in `_laws` hold properties that relate several functions, such as that
a step of the decoder leaves the cache of other positions alone, that int8 kernels agree, or
that decoding gives an encoded text back.

## Floating point

The library holds single-precision values as 32-bit patterns. The arithmetic on them is a
closure that the caller hands in, from an operation to its result; it has to answer the same
operation the same way. Contracts state the exact expression that is computed, in the order
in which it is computed, so they hold for whatever arithmetic is supplied. The program in
`app/` supplies the machine's.

Comparisons, maxima and sorting are on the bit patterns themselves and are proved against
the order of single-precision values.
