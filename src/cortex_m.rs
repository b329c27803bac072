use vstd::prelude::*;

verus! {

/// The possible local timestamp options.
#[derive(Debug, Eq, PartialEq, Structural, Copy, Clone)]
pub enum LocalTimestampOptions {
    /// Disable local timestamps.
    Disabled,
    /// Enable local timestamps and use no prescaling.
    Enabled,
    /// Enable local timestamps and divide the reference clock by 4.
    EnabledDiv4,
    /// Enable local timestamps and divide the reference clock by 16.
    EnabledDiv16,
    /// Enable local timestamps and divide the reference clock by 64.
    EnabledDiv64,
}

/// Active exception number.
#[derive(Clone, Copy, Debug, Eq, PartialEq, Structural, PartialOrd, Hash)]
pub enum VectActive {
    /// Thread mode.
    ThreadMode,
    /// Processor core exception (internal interrupts).
    Exception(Exception),
    /// Device specific exception (external interrupts).
    Interrupt {
        /// Interrupt number, always within the half open range `[0, 512)`.
        irqn: u16,
    },
}

/// Processor core exceptions (internal interrupts).
#[derive(Clone, Copy, Debug, Eq, PartialEq, Structural, PartialOrd, Hash)]
pub enum Exception {
    /// Non maskable interrupt.
    NonMaskableInt,
    /// Hard fault interrupt.
    HardFault,
    /// Memory management interrupt (not present on Cortex-M0 variants).
    MemoryManagement,
    /// Bus fault interrupt (not present on Cortex-M0 variants).
    BusFault,
    /// Usage fault interrupt (not present on Cortex-M0 variants).
    UsageFault,
    /// Secure fault interrupt (only on ARMv8-M).
    SecureFault,
    /// SV call interrupt.
    SVCall,
    /// Debug monitor interrupt (not present on Cortex-M0 variants).
    DebugMonitor,
    /// Pend SV interrupt.
    PendSV,
    /// System tick interrupt.
    SysTick,
}

/// The vector table of a Cortex-M core: which exception a vector
/// number stands for.
pub open spec fn vect_active_of(n: u16) -> Option<VectActive> {
    if n == 0 {
        Some(VectActive::ThreadMode)
    } else if n == 2 {
        Some(VectActive::Exception(Exception::NonMaskableInt))
    } else if n == 3 {
        Some(VectActive::Exception(Exception::HardFault))
    } else if n == 4 {
        Some(VectActive::Exception(Exception::MemoryManagement))
    } else if n == 5 {
        Some(VectActive::Exception(Exception::BusFault))
    } else if n == 6 {
        Some(VectActive::Exception(Exception::UsageFault))
    } else if n == 7 {
        Some(VectActive::Exception(Exception::SecureFault))
    } else if n == 11 {
        Some(VectActive::Exception(Exception::SVCall))
    } else if n == 12 {
        Some(VectActive::Exception(Exception::DebugMonitor))
    } else if n == 14 {
        Some(VectActive::Exception(Exception::PendSV))
    } else if n == 15 {
        Some(VectActive::Exception(Exception::SysTick))
    } else if 16 <= n < 512 {
        Some(VectActive::Interrupt { irqn: (n - 16) as u16 })
    } else {
        None
    }
}

/// The IRQ number of an exception, in the ARM convention.
pub open spec fn irqn_of(e: Exception) -> int {
    match e {
        Exception::NonMaskableInt => -14,
        Exception::HardFault => -13,
        Exception::MemoryManagement => -12,
        Exception::BusFault => -11,
        Exception::UsageFault => -10,
        Exception::SecureFault => -9,
        Exception::SVCall => -5,
        Exception::DebugMonitor => -4,
        Exception::PendSV => -2,
        Exception::SysTick => -1,
    }
}

impl VectActive {
    /// Converts a vector number into `VectActive`.
    pub fn from(vect_active: u16) -> (r: Option<Self>)
        ensures
            r == vect_active_of(vect_active),
    {
        match vect_active {
            0 => Some(VectActive::ThreadMode),
            2 => Some(VectActive::Exception(Exception::NonMaskableInt)),
            3 => Some(VectActive::Exception(Exception::HardFault)),
            4 => Some(VectActive::Exception(Exception::MemoryManagement)),
            5 => Some(VectActive::Exception(Exception::BusFault)),
            6 => Some(VectActive::Exception(Exception::UsageFault)),
            7 => Some(VectActive::Exception(Exception::SecureFault)),
            11 => Some(VectActive::Exception(Exception::SVCall)),
            12 => Some(VectActive::Exception(Exception::DebugMonitor)),
            14 => Some(VectActive::Exception(Exception::PendSV)),
            15 => Some(VectActive::Exception(Exception::SysTick)),
            n => {
                if 16 <= n && n < 512 {
                    Some(VectActive::Interrupt { irqn: n - 16 })
                } else {
                    None
                }
            },
        }
    }
}

impl Exception {
    /// Returns the IRQ number of this `Exception`, always within the
    /// closed range `[-14, -1]`.
    pub fn irqn(self) -> (r: i8)
        ensures
            r == irqn_of(self),
            -14 <= r <= -1,
    {
        match self {
            Exception::NonMaskableInt => -14,
            Exception::HardFault => -13,
            Exception::MemoryManagement => -12,
            Exception::BusFault => -11,
            Exception::UsageFault => -10,
            Exception::SecureFault => -9,
            Exception::SVCall => -5,
            Exception::DebugMonitor => -4,
            Exception::PendSV => -2,
            Exception::SysTick => -1,
        }
    }
}

/// An exception is recovered from its IRQ number: the vector number
/// `irqn + 16` stands for the exception itself.
pub proof fn lemma_irqn_round_trip(e: Exception)
    ensures
        2 <= irqn_of(e) + 16 <= 15,
        vect_active_of((irqn_of(e) + 16) as u16) == Some(VectActive::Exception(e)),
{
}

/// Distinct exceptions have distinct IRQ numbers.
pub proof fn lemma_irqn_injective(a: Exception, b: Exception)
    ensures
        irqn_of(a) == irqn_of(b) <==> a == b,
{
}

} // verus!
