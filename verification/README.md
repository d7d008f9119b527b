# flexspi_nor

A driver for NOR flash chips behind the FlexSPI peripheral of the NXP RT6xx, written in Verus.

- `src/` is the driver: every decision it makes, verified, and none of its bus cycles. A driver
  method returns a `Procedure`, which names one register access after the other, takes the replies,
  and yields the result in the end. The contract of each method says, as a `Run`, which accesses
  are made and what comes of them for every sequence of replies.
  - `registers`: the register accesses and their replies.
  - `procedure`: procedures and runs.
  - `words`: bytes in the 32 bit words of the FIFO data registers.
  - `peripheral`: the FlexSPI peripheral.
  - `nor_flash`: the flash chip.
  - `laws`: what holds of the driver as a whole. Among others: the chip is written to only after
    its status showed the write-enable latch set and no write in progress; the words that a page
    program sends are the data; a read delivers what the chip holds; the cache is invalidated after
    every write that succeeds.
- `app/` performs the accesses on the real registers and offers the driver as blocking calls.
- `tests/` runs the driver against scripted replies and against a simulated board.
