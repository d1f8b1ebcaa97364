# qwen3-5-rs

Inference for Qwen3 models: a tokenizer, a reader for safetensors files, the
transformer with its key and value caches, and the choice of tokens.

`src/` is a library whose functions carry contracts that Verus proves. `app/` is a
command-line program around it, and `tests/` run the library on concrete values.

## The library

| Modules | What they hold |
| --- | --- |
| `scalar` | the numbers that tensors hold, as a trait |
| `index`, `tensor`, `matrix`, `pointwise`, `softmax` | tensors and what is computed with them |
| `rmsnorm`, `rope`, `ffn`, `heads`, `attention`, `transformer_block` | the layers |
| `cache_laws`, `mask_laws` | what the key and value caches keep, and what the causal mask hides |
| `gathering`, `parts`, `passes` | tokens seen in parts give what they give at once |
| `config`, `model`, `load` | a model, and assembling it from named weights |
| `ranking`, `sampling` | choosing tokens |
| `powers`, `exponents`, `period` | the period of the random numbers |
| `text`, `byte_level`, `pretokenize`, `bpe`, `tokenizer`, `roundtrip` | the tokenizer |
| `json`, `half`, `safetensors` | reading files of tensors |
| `inference`, `conversation`, `chat` | generating text, and holding a conversation |
| `launch` | laying out a matrix product on a device |

Numbers are opaque to the proofs. The contracts of numeric functions say which
operations of `Scalar` are applied to which elements, for every type of numbers whose
operations give one result for each argument (`scalar::functional`). What they say of
shapes, places and lengths holds for every type.

What the proofs rest on beside Verus is in `json` (`serde_json`), `safetensors`
(`byteorder`) and `text` (`char` and `String` of the standard library).

## The program

    qwen3-5-rs --model-dir DIR --prompt "Once upon a time"
    qwen3-5-rs --model-dir DIR --interactive

`DIR` holds `config.json`, `tokenizer.json` and `model.safetensors`, or the weights in
several files, `model-00001-of-0000X.safetensors` and so on. In a conversation what
was said is remembered until `/reset`. Without `--seed` the choices differ from run to
run.
