# arctica

The core of the Arctica cold-storage wallet for Bitcoin, verified with Verus:
the miniscript descriptors of the two decaying vaults, the decay schedule,
the configuration file, the time-lock countdown and the reading of the
output of the system commands that the wallet runs.

## Layout

- `src/` is the verified library.
  - `descriptor.rs`: which key slot each hardware wallet or time machine key
    fills, and the delayed (5 of 7 with decay and time machine keys),
    immediate (2 of 7 with decay) and low security descriptors.
  - `setup.rs`: the decay schedule written to the setup CD and the key files.
  - `config.rs`: updating `config.txt`, with the law that reading an entry
    back after writing it finds the written value.
  - `chain_time.rs`: block heights and the countdown to a decay.
  - `helper.rs`: `fdisk` listings and new devices, the internal drive's UUID,
    the optical drive, the home directory and user, decay files, checksums.
  - `psbt.rs`: reading a PSBT for review (its outputs, fee and the
    addresses paid) and the raw transaction's hexadecimal text.
  - `devices.rs`, `wallet.rs`, `node.rs`, `keys.rs`, `error.rs`: the drive
    chooser's summary, shards and master key, QR codes and PSBT options,
    the `bitcoind` arguments, key generation and the error type.
  - `text.rs`: the string functions the rest is written with, each with its
    specification.
- `tests/` runs the library on concrete inputs.
- `app/` is the command-line program around the library: it runs the
  system commands, talks to Bitcoin Core over RPC and hands the library
  plain values.
